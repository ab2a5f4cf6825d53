//! A dual-unit text length: a count of characters together with the count of
//! bytes their UTF-8 encoding takes. Spans of text to delete are measured in
//! both units at once so that a consumer may work in whichever unit its text
//! surface uses.

use vstd::prelude::*;

verus! {

/// How many bytes the UTF-8 encoding of `c` takes.
pub open spec fn char_width(c: char) -> nat {
    if (c as u32) < 0x80 {
        1
    } else if (c as u32) < 0x800 {
        2
    } else if (c as u32) < 0x10000 {
        3
    } else {
        4
    }
}

/// How many bytes the UTF-8 encoding of the text `s` takes.
pub open spec fn bytes_len(s: Seq<char>) -> nat
    decreases s.len(),
{
    if s.len() == 0 {
        0
    } else {
        bytes_len(s.drop_last()) + char_width(s.last())
    }
}

/// A character never takes more than four bytes.
pub proof fn lemma_bytes_len_bound(s: Seq<char>)
    ensures
        s.len() <= bytes_len(s) <= 4 * s.len(),
    decreases s.len(),
{
    if s.len() > 0 {
        lemma_bytes_len_bound(s.drop_last());
    }
}

/// Byte counts add over concatenation.
pub proof fn lemma_bytes_len_concat(a: Seq<char>, b: Seq<char>)
    ensures
        bytes_len(a + b) == bytes_len(a) + bytes_len(b),
    decreases b.len(),
{
    if b.len() == 0 {
        assert(a + b =~= a);
    } else {
        lemma_bytes_len_concat(a, b.drop_last());
        assert((a + b).drop_last() =~= a + b.drop_last());
    }
}

/// Byte counts of a prefix grow one character at a time.
pub proof fn lemma_bytes_len_take_step(s: Seq<char>, i: int)
    requires
        0 <= i < s.len(),
    ensures
        bytes_len(s.take(i + 1)) == bytes_len(s.take(i)) + char_width(s[i]),
{
    assert(s.take(i + 1).drop_last() =~= s.take(i));
}

/// The length of a span of text, counted both in characters and in the bytes
/// of its UTF-8 encoding. Subtraction saturates in each unit independently.
#[derive(Clone, Copy, PartialEq, Eq, Structural, Debug)]
pub struct CharsOrBytes {
    pub chars: u128,
    pub bytes: u128,
}

/// The measure of the text `s` in both units.
pub open spec fn measure(s: Seq<char>) -> CharsOrBytes {
    CharsOrBytes { chars: s.len() as u128, bytes: bytes_len(s) as u128 }
}

impl CharsOrBytes {
    /// The length of no text at all.
    pub fn zero() -> (r: CharsOrBytes)
        ensures
            r.chars == 0,
            r.bytes == 0,
    {
        CharsOrBytes { chars: 0, bytes: 0 }
    }

    /// How many bytes of UTF-8 the character `c` takes.
    pub fn of_char(c: char) -> (r: CharsOrBytes)
        ensures
            r.chars == 1,
            r.bytes == char_width(c),
    {
        let code = c as u32;
        let w: u128 = if code < 0x80 {
            1
        } else if code < 0x800 {
            2
        } else if code < 0x10000 {
            3
        } else {
            4
        };
        CharsOrBytes { chars: 1, bytes: w }
    }

    /// Measures the text `v` in both units.
    pub fn for_text(v: &[char]) -> (r: CharsOrBytes)
        ensures
            r == measure(v@),
    {
        let mut bytes: u128 = 0;
        let mut i: usize = 0;
        let n = v.len();
        proof {
            lemma_bytes_len_bound(v@);
        }
        while i < n
            invariant
                0 <= i <= v@.len(),
                n == v@.len(),
                bytes == bytes_len(v@.take(i as int)),
                bytes_len(v@.take(i as int)) <= bytes_len(v@),
                bytes_len(v@) <= 4 * v@.len(),
            decreases v@.len() - i,
        {
            let w = CharsOrBytes::of_char(v[i]);
            proof {
                lemma_bytes_len_take_step(v@, i as int);
                lemma_bytes_len_bound(v@.take(i as int + 1));
                assert(bytes_len(v@.take(i as int + 1)) <= bytes_len(v@)) by {
                    lemma_bytes_len_concat(v@.take(i as int + 1), v@.skip(i as int + 1));
                    assert(v@.take(i as int + 1) + v@.skip(i as int + 1) =~= v@);
                };
            }
            bytes = bytes + w.bytes;
            i = i + 1;
        }
        proof {
            assert(v@.take(v@.len() as int) =~= v@);
        }
        CharsOrBytes { chars: v.len() as u128, bytes }
    }

    /// Componentwise sum of two spans.
    pub fn plus(self, other: CharsOrBytes) -> (r: CharsOrBytes)
        requires
            self.chars + other.chars <= u128::MAX,
            self.bytes + other.bytes <= u128::MAX,
        ensures
            r.chars == self.chars + other.chars,
            r.bytes == self.bytes + other.bytes,
    {
        CharsOrBytes { chars: self.chars + other.chars, bytes: self.bytes + other.bytes }
    }

    /// Componentwise difference of two spans, saturating at zero in each
    /// unit independently.
    pub fn minus(self, other: CharsOrBytes) -> (r: CharsOrBytes)
        ensures
            r.chars == if self.chars >= other.chars {
                self.chars - other.chars
            } else {
                0
            },
            r.bytes == if self.bytes >= other.bytes {
                self.bytes - other.bytes
            } else {
                0
            },
    {
        CharsOrBytes {
            chars: if self.chars >= other.chars {
                self.chars - other.chars
            } else {
                0
            },
            bytes: if self.bytes >= other.bytes {
                self.bytes - other.bytes
            } else {
                0
            },
        }
    }
}

} // verus!
