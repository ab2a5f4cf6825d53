//! Keys and chords: the fixed set of stenotype key positions, and sets of
//! them pressed together.

use vstd::prelude::*;

verus! {

/// One key position on a stenotype layout, in standard steno order.
///
/// `R2`, `P2`, `T2` and `S2` are the right-hand duplicates of the left-hand
/// letters of the same name.
#[derive(Clone, Copy, PartialEq, Eq, Structural, Debug)]
pub enum Key {
    NumberBar,
    S,
    T,
    K,
    P,
    W,
    H,
    R,
    A,
    O,
    Star,
    E,
    U,
    F,
    R2,
    P2,
    B,
    L,
    G,
    T2,
    S2,
    D,
    Z,
}

impl Key {
    /// The bit this key occupies inside a `Keys` mask.
    pub open spec fn spec_mask(self) -> u32 {
        match self {
            Key::NumberBar => 0x1,
            Key::S => 0x2,
            Key::T => 0x4,
            Key::K => 0x8,
            Key::P => 0x10,
            Key::W => 0x20,
            Key::H => 0x40,
            Key::R => 0x80,
            Key::A => 0x100,
            Key::O => 0x200,
            Key::Star => 0x400,
            Key::E => 0x800,
            Key::U => 0x1000,
            Key::F => 0x2000,
            Key::R2 => 0x4000,
            Key::P2 => 0x8000,
            Key::B => 0x10000,
            Key::L => 0x20000,
            Key::G => 0x40000,
            Key::T2 => 0x80000,
            Key::S2 => 0x100000,
            Key::D => 0x200000,
            Key::Z => 0x400000,
        }
    }

    #[verifier::when_used_as_spec(spec_mask)]
    pub fn mask(self) -> (r: u32)
        ensures
            r == self.spec_mask(),
    {
        match self {
            Key::NumberBar => 0x1,
            Key::S => 0x2,
            Key::T => 0x4,
            Key::K => 0x8,
            Key::P => 0x10,
            Key::W => 0x20,
            Key::H => 0x40,
            Key::R => 0x80,
            Key::A => 0x100,
            Key::O => 0x200,
            Key::Star => 0x400,
            Key::E => 0x800,
            Key::U => 0x1000,
            Key::F => 0x2000,
            Key::R2 => 0x4000,
            Key::P2 => 0x8000,
            Key::B => 0x10000,
            Key::L => 0x20000,
            Key::G => 0x40000,
            Key::T2 => 0x80000,
            Key::S2 => 0x100000,
            Key::D => 0x200000,
            Key::Z => 0x400000,
        }
    }

    /// The letter this key contributes to the written form of a chord.
    pub open spec fn spec_letter(self) -> char {
        match self {
            Key::NumberBar => '#',
            Key::S => 'S',
            Key::T => 'T',
            Key::K => 'K',
            Key::P => 'P',
            Key::W => 'W',
            Key::H => 'H',
            Key::R => 'R',
            Key::A => 'A',
            Key::O => 'O',
            Key::Star => '*',
            Key::E => 'E',
            Key::U => 'U',
            Key::F => 'F',
            Key::R2 => 'R',
            Key::P2 => 'P',
            Key::B => 'B',
            Key::L => 'L',
            Key::G => 'G',
            Key::T2 => 'T',
            Key::S2 => 'S',
            Key::D => 'D',
            Key::Z => 'Z',
        }
    }

    #[verifier::when_used_as_spec(spec_letter)]
    pub fn letter(self) -> (r: char)
        ensures
            r == self.spec_letter(),
    {
        match self {
            Key::NumberBar => '#',
            Key::S => 'S',
            Key::T => 'T',
            Key::K => 'K',
            Key::P => 'P',
            Key::W => 'W',
            Key::H => 'H',
            Key::R => 'R',
            Key::A => 'A',
            Key::O => 'O',
            Key::Star => '*',
            Key::E => 'E',
            Key::U => 'U',
            Key::F => 'F',
            Key::R2 => 'R',
            Key::P2 => 'P',
            Key::B => 'B',
            Key::L => 'L',
            Key::G => 'G',
            Key::T2 => 'T',
            Key::S2 => 'S',
            Key::D => 'D',
            Key::Z => 'Z',
        }
    }
}

/// A chord: the set of keys pressed together in one stroke, held as a bit
/// mask over `Key::spec_mask`.
#[derive(Clone, Copy, PartialEq, Eq, Structural, Debug)]
pub struct Keys(pub u32);

impl Keys {
    /// Whether the key `k` is part of this chord.
    pub open spec fn has(self, k: Key) -> bool {
        self.0 & k.spec_mask() != 0
    }

    /// Whether every key of `ks` is part of this chord.
    pub open spec fn has_all(self, ks: Keys) -> bool {
        self.0 & ks.0 == ks.0
    }

    /// Whether the chord holds no key at all.
    pub open spec fn spec_empty(self) -> bool {
        self.0 == 0
    }

    /// The chord with no keys.
    pub fn new() -> (r: Keys)
        ensures
            r.0 == 0,
    {
        Keys(0)
    }

    /// The chord holding exactly the key `k`.
    pub fn single(k: Key) -> (r: Keys)
        ensures
            r.0 == k.spec_mask(),
    {
        Keys(k.mask())
    }

    /// The chord holding exactly the keys `a` and `b`.
    pub fn pair(a: Key, b: Key) -> (r: Keys)
        ensures
            r.0 == (a.spec_mask() | b.spec_mask()),
    {
        Keys(a.mask() | b.mask())
    }

    /// Adds the key `k` to the chord.
    pub fn insert(&mut self, k: Key)
        ensures
            final(self).0 == (old(self).0 | k.spec_mask()),
    {
        self.0 = self.0 | k.mask();
    }

    /// Membership test.
    pub fn contains(&self, k: Key) -> (r: bool)
        ensures
            r == self.has(k),
    {
        self.0 & k.mask() != 0
    }

    /// Whether the chord holds no key at all.
    pub fn is_empty(&self) -> (r: bool)
        ensures
            r == self.spec_empty(),
    {
        self.0 == 0
    }

    /// Removes the keys of `ks` and reports whether they were all present;
    /// if any was missing, the chord is left unchanged.
    pub fn remove(&mut self, ks: Keys) -> (r: bool)
        ensures
            r == old(self).has_all(ks),
            final(self).0 == if old(self).has_all(ks) {
                old(self).0 & !ks.0
            } else {
                old(self).0
            },
    {
        if self.0 & ks.0 == ks.0 {
            self.0 = self.0 & !ks.0;
            true
        } else {
            false
        }
    }

    /// The letter of `k` if it is part of this chord, else nothing.
    pub open spec fn opt_letter(self, k: Key) -> Seq<char> {
        if self.has(k) {
            seq![k.spec_letter()]
        } else {
            Seq::empty()
        }
    }

    /// The written form of the left-hand bank of the chord.
    pub open spec fn left_text(self) -> Seq<char> {
        self.opt_letter(Key::NumberBar) + self.opt_letter(Key::S) + self.opt_letter(Key::T)
            + self.opt_letter(Key::K) + self.opt_letter(Key::P) + self.opt_letter(Key::W)
            + self.opt_letter(Key::H) + self.opt_letter(Key::R)
    }

    /// The written form of the vowel bank (with the star) of the chord.
    pub open spec fn mid_text(self) -> Seq<char> {
        self.opt_letter(Key::A) + self.opt_letter(Key::O) + self.opt_letter(Key::Star)
            + self.opt_letter(Key::E) + self.opt_letter(Key::U)
    }

    /// The written form of the right-hand bank of the chord.
    pub open spec fn right_text(self) -> Seq<char> {
        self.opt_letter(Key::F) + self.opt_letter(Key::R2) + self.opt_letter(Key::P2)
            + self.opt_letter(Key::B) + self.opt_letter(Key::L) + self.opt_letter(Key::G)
            + self.opt_letter(Key::T2) + self.opt_letter(Key::S2) + self.opt_letter(Key::D)
            + self.opt_letter(Key::Z)
    }

    /// Whether any right-hand key is part of the chord.
    pub open spec fn has_right(self) -> bool {
        self.has(Key::F) || self.has(Key::R2) || self.has(Key::P2) || self.has(Key::B)
            || self.has(Key::L) || self.has(Key::G) || self.has(Key::T2) || self.has(Key::S2)
            || self.has(Key::D) || self.has(Key::Z)
    }

    /// Whether any vowel-bank key (or the star) is part of the chord.
    pub open spec fn has_mid(self) -> bool {
        self.has(Key::A) || self.has(Key::O) || self.has(Key::Star) || self.has(Key::E)
            || self.has(Key::U)
    }

    /// The canonical written form of the chord in steno notation: left bank,
    /// vowel bank, right bank, with a hyphen standing in for an empty vowel
    /// bank when right-hand keys are present.
    pub open spec fn spec_text(self) -> Seq<char> {
        self.left_text() + self.mid_text() + (if self.has_right() && !self.has_mid() {
            seq!['-']
        } else {
            Seq::<char>::empty()
        }) + self.right_text()
    }

    /// Appends the letter of `k` if it is part of this chord.
    fn push_opt(&self, v: &mut Vec<char>, k: Key)
        ensures
            final(v)@ == old(v)@ + self.opt_letter(k),
    {
        if self.contains(k) {
            v.push(k.letter());
        }
        assert(v@ =~= old(v)@ + self.opt_letter(k));
    }

    /// Appends the written form of the left-hand bank.
    fn push_left(&self, v: &mut Vec<char>)
        ensures
            final(v)@ == old(v)@ + self.left_text(),
    {
        self.push_opt(v, Key::NumberBar);
        self.push_opt(v, Key::S);
        self.push_opt(v, Key::T);
        self.push_opt(v, Key::K);
        self.push_opt(v, Key::P);
        self.push_opt(v, Key::W);
        self.push_opt(v, Key::H);
        self.push_opt(v, Key::R);
        assert(v@ =~= old(v)@ + self.left_text());
    }

    /// Appends the written form of the vowel bank.
    fn push_mid(&self, v: &mut Vec<char>)
        ensures
            final(v)@ == old(v)@ + self.mid_text(),
    {
        self.push_opt(v, Key::A);
        self.push_opt(v, Key::O);
        self.push_opt(v, Key::Star);
        self.push_opt(v, Key::E);
        self.push_opt(v, Key::U);
        assert(v@ =~= old(v)@ + self.mid_text());
    }

    /// Appends the written form of the right-hand bank.
    fn push_right(&self, v: &mut Vec<char>)
        ensures
            final(v)@ == old(v)@ + self.right_text(),
    {
        self.push_opt(v, Key::F);
        self.push_opt(v, Key::R2);
        self.push_opt(v, Key::P2);
        self.push_opt(v, Key::B);
        self.push_opt(v, Key::L);
        self.push_opt(v, Key::G);
        self.push_opt(v, Key::T2);
        self.push_opt(v, Key::S2);
        self.push_opt(v, Key::D);
        self.push_opt(v, Key::Z);
        assert(v@ =~= old(v)@ + self.right_text());
    }

    /// Renders the chord in steno notation.
    pub fn text(&self) -> (r: Vec<char>)
        ensures
            r@ == self.spec_text(),
    {
        let mut v: Vec<char> = Vec::new();
        self.push_left(&mut v);
        self.push_mid(&mut v);
        let right_present = self.contains(Key::F) || self.contains(Key::R2)
            || self.contains(Key::P2) || self.contains(Key::B) || self.contains(Key::L)
            || self.contains(Key::G) || self.contains(Key::T2) || self.contains(Key::S2)
            || self.contains(Key::D) || self.contains(Key::Z);
        let mid_present = self.contains(Key::A) || self.contains(Key::O)
            || self.contains(Key::Star) || self.contains(Key::E) || self.contains(Key::U);
        if right_present && !mid_present {
            v.push('-');
        }
        self.push_right(&mut v);
        assert(v@ =~= self.spec_text());
        v
    }
}

} // verus!
