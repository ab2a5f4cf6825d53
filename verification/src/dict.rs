//! Dictionary entries: the compiled output program of a definition, and the
//! dictionary capability the engine resolves chords against.

use crate::keys::Keys;
use vstd::prelude::*;

verus! {

/// A command a dictionary entry can direct at the engine itself instead of
/// emitting text.
#[derive(Clone, Copy, PartialEq, Eq, Structural, Debug)]
pub enum PloverCommand {
    Backspace,
    Quit,
}

/// A punctuation mark with its own spacing and capitalization behaviour.
#[derive(Clone, Copy, PartialEq, Eq, Structural, Debug)]
pub enum SpecialPunct {
    Period,
    Comma,
    Colon,
    Semi,
    Bang,
    Question,
}

impl SpecialPunct {
    /// The character this mark appends.
    pub open spec fn spec_char(self) -> char {
        match self {
            SpecialPunct::Period => '.',
            SpecialPunct::Comma => ',',
            SpecialPunct::Colon => ':',
            SpecialPunct::Semi => ';',
            SpecialPunct::Bang => '!',
            SpecialPunct::Question => '?',
        }
    }

    #[verifier::when_used_as_spec(spec_char)]
    pub fn as_char(self) -> (r: char)
        ensures
            r == self.spec_char(),
    {
        match self {
            SpecialPunct::Period => '.',
            SpecialPunct::Comma => ',',
            SpecialPunct::Colon => ':',
            SpecialPunct::Semi => ';',
            SpecialPunct::Bang => '!',
            SpecialPunct::Question => '?',
        }
    }

    /// Whether the mark ends a sentence, so that the next word is
    /// capitalized.
    pub open spec fn spec_is_sentence_end(self) -> bool {
        match self {
            SpecialPunct::Period | SpecialPunct::Bang | SpecialPunct::Question => true,
            SpecialPunct::Comma | SpecialPunct::Colon | SpecialPunct::Semi => false,
        }
    }

    #[verifier::when_used_as_spec(spec_is_sentence_end)]
    pub fn is_sentence_end(self) -> (r: bool)
        ensures
            r == self.spec_is_sentence_end(),
    {
        match self {
            SpecialPunct::Period | SpecialPunct::Bang | SpecialPunct::Question => true,
            SpecialPunct::Comma | SpecialPunct::Colon | SpecialPunct::Semi => false,
        }
    }
}

/// One instruction of a dictionary entry's output program.
#[derive(Debug)]
pub enum EntryPart {
    /// Emit this text.
    Verbatim(Vec<char>),
    /// Emit a punctuation mark and adjust spacing and capitalization.
    SpecialPunct(SpecialPunct),
    /// Force (or forbid) capitalization of the next emitted fragment.
    SetCaps(bool),
    /// Force (or suppress) the separator before the next emitted fragment.
    SetSpace(bool),
    /// Let the pending capitalization and spacing survive the next fragment.
    CarryToNext,
    /// Fuse with an adjacent glued fragment without separator or case reset.
    Glue,
    /// Direct a command at the engine.
    PloverCommand(PloverCommand),
}

/// The ghost form of an instruction: text as a sequence of characters.
pub enum PartModel {
    Verbatim(Seq<char>),
    SpecialPunct(SpecialPunct),
    SetCaps(bool),
    SetSpace(bool),
    CarryToNext,
    Glue,
    PloverCommand(PloverCommand),
}

impl View for EntryPart {
    type V = PartModel;

    open spec fn view(&self) -> PartModel {
        match self {
            EntryPart::Verbatim(t) => PartModel::Verbatim(t@),
            EntryPart::SpecialPunct(p) => PartModel::SpecialPunct(*p),
            EntryPart::SetCaps(b) => PartModel::SetCaps(*b),
            EntryPart::SetSpace(b) => PartModel::SetSpace(*b),
            EntryPart::CarryToNext => PartModel::CarryToNext,
            EntryPart::Glue => PartModel::Glue,
            EntryPart::PloverCommand(c) => PartModel::PloverCommand(*c),
        }
    }
}

impl Clone for EntryPart {
    fn clone(&self) -> (r: Self)
        ensures
            r@ == self@,
    {
        match self {
            EntryPart::Verbatim(t) => {
                let mut v: Vec<char> = Vec::new();
                let mut i: usize = 0;
                while i < t.len()
                    invariant
                        0 <= i <= t@.len(),
                        v@ == t@.take(i as int),
                    decreases t@.len() - i,
                {
                    v.push(t[i]);
                    proof {
                        assert(v@ =~= t@.take(i as int + 1));
                    }
                    i = i + 1;
                }
                proof {
                    assert(v@ =~= t@);
                }
                EntryPart::Verbatim(v)
            },
            EntryPart::SpecialPunct(p) => EntryPart::SpecialPunct(*p),
            EntryPart::SetCaps(b) => EntryPart::SetCaps(*b),
            EntryPart::SetSpace(b) => EntryPart::SetSpace(*b),
            EntryPart::CarryToNext => EntryPart::CarryToNext,
            EntryPart::Glue => EntryPart::Glue,
            EntryPart::PloverCommand(c) => EntryPart::PloverCommand(*c),
        }
    }
}

/// The ghost form of a sequence of instructions.
pub open spec fn parts_view(v: Seq<EntryPart>) -> Seq<PartModel> {
    v.map_values(|p: EntryPart| p@)
}

/// A dictionary entry: the ordered instructions a definition compiles to.
#[derive(Debug)]
pub struct Entry(pub Vec<EntryPart>);

impl View for Entry {
    type V = Seq<PartModel>;

    open spec fn view(&self) -> Seq<PartModel> {
        parts_view(self.0@)
    }
}

impl Clone for Entry {
    fn clone(&self) -> (r: Self)
        ensures
            r@ == self@,
    {
        let mut v: Vec<EntryPart> = Vec::new();
        let mut i: usize = 0;
        while i < self.0.len()
            invariant
                0 <= i <= self.0@.len(),
                v@.len() == i,
                forall|j: int| 0 <= j < i ==> v@[j]@ == self.0@[j]@,
            decreases self.0@.len() - i,
        {
            v.push(self.0[i].clone());
            i = i + 1;
        }
        proof {
            assert(parts_view(v@) =~= parts_view(self.0@));
        }
        Entry(v)
    }
}

/// A multi-chord outline: the ordered chords a dictionary key consists of.
#[derive(Debug)]
pub struct Strokes(pub Vec<Keys>);

impl View for Strokes {
    type V = Seq<Keys>;

    open spec fn view(&self) -> Seq<Keys> {
        self.0@
    }
}

impl Strokes {
    /// How many chords the outline spans.
    pub fn num_strokes(&self) -> (r: usize)
        ensures
            r == self@.len(),
    {
        self.0.len()
    }
}

impl Clone for Strokes {
    fn clone(&self) -> (r: Self)
        ensures
            r@ == self@,
    {
        let mut v: Vec<Keys> = Vec::new();
        let mut i: usize = 0;
        while i < self.0.len()
            invariant
                0 <= i <= self.0@.len(),
                v@ == self.0@.take(i as int),
            decreases self.0@.len() - i,
        {
            v.push(self.0[i]);
            proof {
                assert(v@ =~= self.0@.take(i as int + 1));
            }
            i = i + 1;
        }
        proof {
            assert(v@ =~= self.0@);
        }
        Strokes(v)
    }
}

/// The dictionary capability the engine resolves against: a deterministic
/// lookup from outlines to entries, and a bound on how many chords the
/// longest defined outline spans.
pub trait Dict {
    /// The entry this dictionary defines for `strokes`, if any.
    spec fn spec_get(&self, strokes: Seq<Keys>) -> Option<Entry>;

    /// How many chords the longest defined outline may span.
    spec fn spec_max_strokes(&self) -> nat;

    /// Looks the outline up.
    fn get(&self, keys: &[Keys]) -> (r: Option<Entry>)
        ensures
            match (r, self.spec_get(keys@)) {
                (Some(e), Some(se)) => e@ == se@,
                (None, None) => true,
                _ => false,
            },
    ;

    /// Reports the outline-length bound.
    fn max_strokes(&self) -> (r: usize)
        ensures
            r as nat == self.spec_max_strokes(),
    ;
}

/// What a `MapDict` defines for `strokes`: the first pair whose outline
/// matches, if any.
pub open spec fn map_dict_lookup(
    entries: Seq<(Strokes, Entry)>,
    strokes: Seq<Keys>,
) -> Option<Entry>
    decreases entries.len(),
{
    if entries.len() == 0 {
        None
    } else if entries[0].0@ == strokes {
        Some(entries[0].1)
    } else {
        map_dict_lookup(entries.drop_first(), strokes)
    }
}

/// If none of the first `i` outlines matches, the lookup is decided by the
/// rest.
proof fn lemma_map_dict_lookup_skip(entries: Seq<(Strokes, Entry)>, strokes: Seq<Keys>, i: int)
    requires
        0 <= i <= entries.len(),
        forall|j: int| 0 <= j < i ==> entries[j].0@ != strokes,
    ensures
        map_dict_lookup(entries, strokes) == map_dict_lookup(entries.skip(i), strokes),
    decreases i,
{
    if i > 0 {
        lemma_map_dict_lookup_skip(entries.drop_first(), strokes, i - 1);
        assert(entries.drop_first().skip(i - 1) =~= entries.skip(i));
    } else {
        assert(entries.skip(0) =~= entries);
    }
}

/// A plain in-memory dictionary: a list of outline/entry pairs searched in
/// order, the first definition of an outline winning, together with the
/// length in chords of its longest outline.
#[derive(Debug)]
pub struct MapDict {
    entries: Vec<(Strokes, Entry)>,
    max: usize,
}

/// Whether the outline `a` consists of exactly the chords `b`.
fn strokes_eq(a: &Strokes, b: &[Keys]) -> (r: bool)
    ensures
        r == (a@ == b@),
{
    if a.0.len() != b.len() {
        proof {
            assert(a@ != b@);
        }
        return false;
    }
    let n = a.0.len();
    let mut i: usize = 0;
    while i < n
        invariant
            0 <= i <= n,
            n == a@.len() == b@.len(),
            forall|j: int| 0 <= j < i ==> a@[j] == b@[j],
        decreases n - i,
    {
        if a.0[i] != b[i] {
            proof {
                assert(a@[i as int] != b@[i as int]);
            }
            return false;
        }
        i = i + 1;
    }
    proof {
        assert(a@ =~= b@);
    }
    true
}

impl MapDict {
    /// An empty dictionary.
    pub fn new() -> (r: MapDict)
        ensures
            r.spec_entries() == Seq::<(Strokes, Entry)>::empty(),
            r.spec_max_strokes() == 0,
    {
        MapDict { entries: Vec::new(), max: 0 }
    }

    /// The outline/entry pairs, in definition order.
    pub closed spec fn spec_entries(&self) -> Seq<(Strokes, Entry)> {
        self.entries@
    }

    /// Defines `outline` to produce `entry`; an earlier definition of the
    /// same outline keeps precedence.
    pub fn define(&mut self, outline: Strokes, entry: Entry)
        ensures
            final(self).spec_entries() == old(self).spec_entries().push((outline, entry)),
            final(self).spec_max_strokes() == if outline@.len() > old(self).spec_max_strokes() {
                outline@.len()
            } else {
                old(self).spec_max_strokes()
            },
    {
        let n = outline.num_strokes();
        if n > self.max {
            self.max = n;
        }
        self.entries.push((outline, entry));
    }
}

impl Dict for MapDict {
    closed spec fn spec_get(&self, strokes: Seq<Keys>) -> Option<Entry> {
        map_dict_lookup(self.entries@, strokes)
    }

    closed spec fn spec_max_strokes(&self) -> nat {
        self.max as nat
    }

    fn get(&self, keys: &[Keys]) -> (r: Option<Entry>) {
        let n = self.entries.len();
        let mut i: usize = 0;
        while i < n
            invariant
                0 <= i <= n,
                n == self.entries@.len(),
                forall|j: int| 0 <= j < i ==> self.entries@[j].0@ != keys@,
            decreases n - i,
        {
            if strokes_eq(&self.entries[i].0, keys) {
                proof {
                    lemma_map_dict_lookup_skip(self.entries@, keys@, i as int);
                    assert(self.entries@.skip(i as int)[0] == self.entries@[i as int]);
                }
                return Some(self.entries[i].1.clone());
            }
            i = i + 1;
        }
        proof {
            lemma_map_dict_lookup_skip(self.entries@, keys@, n as int);
            assert(self.entries@.skip(n as int).len() == 0);
        }
        None
    }

    fn max_strokes(&self) -> (r: usize) {
        self.max
    }
}

} // verus!
