//! The orthographic-fusion rule: a pure function asked, whenever spacing is
//! suppressed, whether a preceding fragment and a new fragment spell a
//! combined form. The rule table here is deliberately small; the engine only
//! depends on the call being pure.

use vstd::prelude::*;

verus! {

/// The combined spelling of `before` followed by `new`, if a rule applies.
///
/// The one rule carried here is the silent-`e` rule: a fragment ending in
/// `e` fuses with a suffix beginning in `i` by dropping the `e`, as in
/// `make` + `ing`.
pub open spec fn spec_combined(before: Seq<char>, new: Seq<char>) -> Option<Seq<char>> {
    if before.len() > 0 && new.len() > 0 && before.last() == 'e' && new[0] == 'i' {
        Some(before.drop_last() + new)
    } else {
        None
    }
}

/// Applies the orthographic-fusion rule to the pair of fragments.
pub fn apply_orthography_rules(before: &[char], new: &[char]) -> (r: Option<Vec<char>>)
    ensures
        r is Some <==> spec_combined(before@, new@) is Some,
        r is Some ==> r.unwrap()@ == spec_combined(before@, new@).unwrap(),
{
    if before.len() > 0 && new.len() > 0 && before[before.len() - 1] == 'e' && new[0] == 'i' {
        let mut out: Vec<char> = Vec::new();
        let mut i: usize = 0;
        while i < before.len() - 1
            invariant
                before@.len() > 0,
                0 <= i <= before@.len() - 1,
                out@ == before@.take(i as int),
            decreases before@.len() - 1 - i,
        {
            out.push(before[i]);
            proof {
                assert(out@ =~= before@.take(i as int + 1));
            }
            i = i + 1;
        }
        let mut j: usize = 0;
        while j < new.len()
            invariant
                0 <= j <= new@.len(),
                out@ == before@.take(before@.len() - 1) + new@.take(j as int),
            decreases new@.len() - j,
        {
            out.push(new[j]);
            proof {
                assert(out@ =~= before@.take(before@.len() - 1) + new@.take(j as int + 1));
            }
            j = j + 1;
        }
        proof {
            assert(out@ =~= before@.drop_last() + new@);
        }
        Some(out)
    } else {
        None
    }
}

} // verus!
