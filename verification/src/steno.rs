//! The engine proper: chord resolution against the dictionary and history,
//! the bounded journal, the formatter state machine, and the output diff
//! accumulator.

use crate::chars_or_bytes::{bytes_len, CharsOrBytes};
use crate::dict::{Dict, Entry, EntryPart, PartModel, PloverCommand, SpecialPunct, Strokes};
use crate::keys::{Key, Keys};
use vstd::prelude::*;
use vstd::slice::SliceAdditionalExecFns;
use vstd::std_specs::vecdeque::VecDequeAdditionalSpecFns;

verus! {

/// How many committed productions the journal keeps at most.
pub const BACKLOG_DEPTH: usize = 1000;

/// The persistent formatting state carried between productions.
#[derive(Clone, Copy, PartialEq, Eq, Debug)]
pub struct InputState {
    /// Force the first character of the next fragment upper (`Some(true)`)
    /// or lower (`Some(false)`) case, or leave it alone (`None`).
    pub caps: Option<bool>,
    /// Whether a separator is owed before the next fragment.
    pub space: bool,
    /// One-shot: let `caps` and `space` survive the next fragment.
    pub carry_to_next: bool,
    /// Whether some instruction of the latest production was a glue marker.
    pub glue: bool,
}

impl InputState {
    /// The state a fresh engine starts in: capitalize, no leading separator.
    pub open spec fn initial() -> InputState {
        InputState { caps: Some(true), space: false, carry_to_next: false, glue: false }
    }
}

/// One committed production: the chords that produced it, the exact text it
/// emitted, and the formatting state in effect just before it ran.
#[derive(Debug)]
pub struct InputEvent {
    pub strokes: Strokes,
    pub text: Vec<char>,
    pub state_before: InputState,
}

/// The ghost form of a committed production.
pub struct EventModel {
    pub strokes: Seq<Keys>,
    pub text: Seq<char>,
    pub state_before: InputState,
}

impl View for InputEvent {
    type V = EventModel;

    open spec fn view(&self) -> EventModel {
        EventModel { strokes: self.strokes@, text: self.text@, state_before: self.state_before }
    }
}

/// The signal a resolved chord can raise instead of an ordinary edit.
#[derive(Debug)]
pub enum SpecialAction {
    Quit,
}

/// The net edit one resolved chord asks the text surface to make: first
/// delete whole words, then delete a span measured in dual units, then
/// append text.
#[derive(Debug)]
pub struct Output {
    pub delete_words: usize,
    pub delete: CharsOrBytes,
    pub append: Vec<char>,
}

/// The ghost form of a pending edit.
pub struct DiffModel {
    pub words: nat,
    pub chars: nat,
    pub bytes: nat,
    pub text: Seq<char>,
}

impl View for Output {
    type V = DiffModel;

    open spec fn view(&self) -> DiffModel {
        DiffModel {
            words: self.delete_words as nat,
            chars: self.delete.chars as nat,
            bytes: self.delete.bytes as nat,
            text: self.append@,
        }
    }
}

/// `a - b`, saturating at zero.
pub open spec fn nat_sub(a: nat, b: nat) -> nat {
    if a >= b {
        (a - b) as nat
    } else {
        0
    }
}

/// Staging text onto a pending edit.
pub open spec fn diff_append(d: DiffModel, t: Seq<char>) -> DiffModel {
    DiffModel { text: d.text + t, ..d }
}

/// Deleting a span from a pending edit: a span no longer than the staged
/// text trims it from the staged tail (cancelling a same-call append);
/// a longer span consumes all staged text and grows the running delete
/// span by the remainder.
pub open spec fn diff_delete(d: DiffModel, ac: nat, ab: nat) -> DiffModel {
    if ac <= d.text.len() {
        DiffModel { text: d.text.take(d.text.len() - ac), ..d }
    } else {
        DiffModel {
            words: d.words,
            chars: (d.chars + ac - d.text.len()) as nat,
            bytes: d.bytes + nat_sub(ab, bytes_len(d.text)),
            text: Seq::empty(),
        }
    }
}

/// Asking the surface to delete `n` whole words.
pub open spec fn diff_delete_words(d: DiffModel, n: nat) -> DiffModel {
    DiffModel { words: d.words + n, ..d }
}

impl Output {
    /// An edit that so far deletes `delete` and stages nothing.
    fn new(delete: CharsOrBytes) -> (r: Output)
        ensures
            r@ == (DiffModel {
                words: 0,
                chars: delete.chars as nat,
                bytes: delete.bytes as nat,
                text: Seq::<char>::empty(),
            }),
    {
        let r = Output { delete_words: 0, delete, append: Vec::new() };
        proof {
            assert(r@.text =~= Seq::<char>::empty());
        }
        r
    }

    /// Extends the span to delete by `amount`.
    fn delete(&mut self, amount: CharsOrBytes)
        requires
            old(self)@.chars + amount.chars <= u128::MAX,
            old(self)@.bytes + amount.bytes <= u128::MAX,
        ensures
            final(self)@ == diff_delete(old(self)@, amount.chars as nat, amount.bytes as nat),
    {
        let staged = CharsOrBytes::for_text(self.append.as_slice());
        let cur_len = self.append.len();
        if amount.chars <= staged.chars {
            proof {
                assert(staged.chars == cur_len);
            }
            let ac = amount.chars as usize;
            let new_len = cur_len - ac;
            self.append.truncate(new_len);
        } else {
            proof {
                crate::chars_or_bytes::lemma_bytes_len_bound(self.append@);
                assert(self.append@.len() == cur_len);
            }
            self.delete = self.delete.plus(amount.minus(staged));
            self.append.clear();
            proof {
                assert(self@.text =~= Seq::<char>::empty());
            }
        }
    }

    /// Asks the surface to delete `n` whole words before everything else.
    fn delete_words(&mut self, n: usize)
        requires
            old(self)@.words + n <= usize::MAX,
        ensures
            final(self)@ == diff_delete_words(old(self)@, n as nat),
    {
        self.delete_words = self.delete_words + n;
    }

    /// Stages `t` for appending.
    fn append(&mut self, t: &[char])
        ensures
            final(self)@ == diff_append(old(self)@, t@),
    {
        let n = t.len();
        let mut i: usize = 0;
        while i < n
            invariant
                0 <= i <= n,
                n == t@.len(),
                self.delete_words == old(self).delete_words,
                self.delete == old(self).delete,
                self.append@ == old(self).append@ + t@.take(i as int),
            decreases n - i,
        {
            self.append.push(t[i]);
            proof {
                assert(self.append@ =~= old(self).append@ + t@.take(i as int + 1));
            }
            i = i + 1;
        }
        proof {
            assert(self.append@ =~= old(self).append@ + t@);
        }
    }

    /// Replaces the latest `old_len` of text with `new`.
    fn replace(&mut self, old_len: CharsOrBytes, new: &[char])
        requires
            old(self)@.chars + old_len.chars <= u128::MAX,
            old(self)@.bytes + old_len.bytes <= u128::MAX,
        ensures
            final(self)@ == diff_append(
                diff_delete(old(self)@, old_len.chars as nat, old_len.bytes as nat),
                new@,
            ),
    {
        self.delete(old_len);
        self.append(new);
    }
}

/// The digit a number-bar chord reads off each digit key, in the layout's
/// table order.
pub open spec fn opt_digit(keys: Keys, k: Key, c: char) -> Seq<char> {
    if keys.has(k) {
        seq![c]
    } else {
        Seq::empty()
    }
}

/// The digits of a number-bar chord, in table order.
pub open spec fn spec_digits(keys: Keys) -> Seq<char> {
    opt_digit(keys, Key::S, '1') + opt_digit(keys, Key::T, '2') + opt_digit(keys, Key::P, '3')
        + opt_digit(keys, Key::H, '4') + opt_digit(keys, Key::A, '5')
        + opt_digit(keys, Key::O, '0') + opt_digit(keys, Key::F, '6')
        + opt_digit(keys, Key::P2, '7') + opt_digit(keys, Key::L, '8')
        + opt_digit(keys, Key::T2, '9')
}

/// The mask of the number bar together with every digit key.
pub open spec fn spec_number_mask() -> u32 {
    Key::NumberBar.spec_mask() | Key::S.spec_mask() | Key::T.spec_mask() | Key::P.spec_mask()
        | Key::H.spec_mask() | Key::A.spec_mask() | Key::O.spec_mask() | Key::F.spec_mask()
        | Key::P2.spec_mask() | Key::L.spec_mask() | Key::T2.spec_mask()
}

/// The modifier keys left on a number-bar chord once the bar and the digit
/// keys are stripped.
pub open spec fn spec_num_m0(keys: Keys) -> u32 {
    keys.0 & !spec_number_mask()
}

/// Whether the reversal pair `EU` is among the modifiers.
pub open spec fn spec_num_rev(keys: Keys) -> bool {
    Keys(spec_num_m0(keys)).has_all(Keys(Key::E.spec_mask() | Key::U.spec_mask()))
}

/// The digits after the reversal rule.
pub open spec fn spec_num_d1(keys: Keys) -> Seq<char> {
    if spec_num_rev(keys) {
        spec_digits(keys).reverse()
    } else {
        spec_digits(keys)
    }
}

/// The modifiers after the reversal rule consumed its pair.
pub open spec fn spec_num_m1(keys: Keys) -> u32 {
    if spec_num_rev(keys) {
        spec_num_m0(keys) & !(Key::E.spec_mask() | Key::U.spec_mask())
    } else {
        spec_num_m0(keys)
    }
}

/// Whether the dollar pair `DZ` is among the remaining modifiers.
pub open spec fn spec_num_dollar(keys: Keys) -> bool {
    Keys(spec_num_m1(keys)).has_all(Keys(Key::D.spec_mask() | Key::Z.spec_mask()))
}

/// The digits after the dollar rule, or else the doubling (`D`) and
/// cents (`Z`) rules.
pub open spec fn spec_num_d2(keys: Keys) -> Seq<char> {
    if spec_num_dollar(keys) {
        seq!['$'] + spec_num_d1(keys) + seq!['0', '0']
    } else {
        let da = if Keys(spec_num_m1(keys)).has_all(Keys(Key::D.spec_mask())) {
            spec_num_d1(keys) + spec_num_d1(keys)
        } else {
            spec_num_d1(keys)
        };
        let ma = if Keys(spec_num_m1(keys)).has_all(Keys(Key::D.spec_mask())) {
            spec_num_m1(keys) & !Key::D.spec_mask()
        } else {
            spec_num_m1(keys)
        };
        if Keys(ma).has_all(Keys(Key::Z.spec_mask())) {
            da + seq!['0', '0']
        } else {
            da
        }
    }
}

/// The modifiers after the dollar, doubling and cents rules consumed
/// their keys.
pub open spec fn spec_num_m2(keys: Keys) -> u32 {
    if spec_num_dollar(keys) {
        spec_num_m1(keys) & !(Key::D.spec_mask() | Key::Z.spec_mask())
    } else {
        let ma = if Keys(spec_num_m1(keys)).has_all(Keys(Key::D.spec_mask())) {
            spec_num_m1(keys) & !Key::D.spec_mask()
        } else {
            spec_num_m1(keys)
        };
        if Keys(ma).has_all(Keys(Key::Z.spec_mask())) {
            ma & !Key::Z.spec_mask()
        } else {
            ma
        }
    }
}

/// The digits after the time rule (`K`, or else the pair `BG`).
pub open spec fn spec_num_d3(keys: Keys) -> Seq<char> {
    if Keys(spec_num_m2(keys)).has_all(Keys(Key::K.spec_mask())) || Keys(spec_num_m2(keys)).has_all(
        Keys(Key::B.spec_mask() | Key::G.spec_mask()),
    ) {
        spec_num_d2(keys) + seq![':', '0', '0']
    } else {
        spec_num_d2(keys)
    }
}

/// The modifiers after the time rule consumed its key or pair. Note that a
/// present `K` takes the rule, leaving a `BG` pair unconsumed.
pub open spec fn spec_num_m3(keys: Keys) -> u32 {
    if Keys(spec_num_m2(keys)).has_all(Keys(Key::K.spec_mask())) {
        spec_num_m2(keys) & !Key::K.spec_mask()
    } else if Keys(spec_num_m2(keys)).has_all(Keys(Key::B.spec_mask() | Key::G.spec_mask())) {
        spec_num_m2(keys) & !(Key::B.spec_mask() | Key::G.spec_mask())
    } else {
        spec_num_m2(keys)
    }
}

/// What the numeral formatter yields for a number-bar chord: the digits in
/// table order, transformed by the modifier keys — `EU` reverses, `DZ`
/// makes a dollar amount, `D` doubles, `Z` appends `00`, and `K` (or `BG`)
/// makes a time of day. A chord with keys left over after all rules is not
/// a numeral pattern and yields nothing.
pub open spec fn spec_make_numbers(keys: Keys) -> Option<Seq<char>> {
    if spec_num_m3(keys) == 0 {
        Some(spec_num_d3(keys))
    } else {
        None
    }
}

/// Reverses a sequence of characters.
fn reversed(v: &Vec<char>) -> (r: Vec<char>)
    ensures
        r@ == v@.reverse(),
{
    let n = v.len();
    let mut r: Vec<char> = Vec::new();
    let mut i: usize = 0;
    while i < n
        invariant
            0 <= i <= n,
            n == v@.len(),
            r@.len() == i,
            forall|j: int| 0 <= j < i ==> r@[j] == v@[n - 1 - j],
        decreases n - i,
    {
        r.push(v[n - 1 - i]);
        i = i + 1;
    }
    proof {
        assert(r@ =~= v@.reverse());
    }
    r
}

/// Appends the digit of `k` if it is part of the chord.
fn push_digit(keys: Keys, v: &mut Vec<char>, k: Key, c: char)
    ensures
        final(v)@ == old(v)@ + opt_digit(keys, k, c),
{
    if keys.contains(k) {
        v.push(c);
    }
    assert(v@ =~= old(v)@ + opt_digit(keys, k, c));
}

/// Collects the digits of a number-bar chord in table order.
fn collect_digits(keys: Keys) -> (r: Vec<char>)
    ensures
        r@ == spec_digits(keys),
{
    let mut ret: Vec<char> = Vec::new();
    push_digit(keys, &mut ret, Key::S, '1');
    push_digit(keys, &mut ret, Key::T, '2');
    push_digit(keys, &mut ret, Key::P, '3');
    push_digit(keys, &mut ret, Key::H, '4');
    push_digit(keys, &mut ret, Key::A, '5');
    push_digit(keys, &mut ret, Key::O, '0');
    push_digit(keys, &mut ret, Key::F, '6');
    push_digit(keys, &mut ret, Key::P2, '7');
    push_digit(keys, &mut ret, Key::L, '8');
    push_digit(keys, &mut ret, Key::T2, '9');
    assert(ret@ =~= spec_digits(keys));
    ret
}

/// Formats a number-bar chord as digits, per `spec_make_numbers`.
#[verifier::rlimit(80)]
pub fn make_numbers(keys: Keys) -> (r: Option<Vec<char>>)
    ensures
        r is Some <==> spec_make_numbers(keys) is Some,
        r is Some ==> r.unwrap()@ == spec_make_numbers(keys).unwrap(),
{
    let mut ret = collect_digits(keys);
    let mut rem = Keys(
        keys.0 & !(Key::NumberBar.mask() | Key::S.mask() | Key::T.mask() | Key::P.mask()
            | Key::H.mask() | Key::A.mask() | Key::O.mask() | Key::F.mask() | Key::P2.mask()
            | Key::L.mask() | Key::T2.mask()),
    );
    assert(rem.0 == spec_num_m0(keys));
    if rem.remove(Keys::pair(Key::E, Key::U)) {
        ret = reversed(&ret);
    }
    assert(rem.0 == spec_num_m1(keys));
    assert(ret@ == spec_num_d1(keys));
    if rem.remove(Keys::pair(Key::D, Key::Z)) {
        let ghost d1 = ret@;
        ret.insert(0, '$');
        ret.push('0');
        ret.push('0');
        proof {
            assert(ret@ =~= seq!['$'] + d1 + seq!['0', '0']);
        }
    } else {
        if rem.remove(Keys::single(Key::D)) {
            let ghost orig = ret@;
            let n = ret.len();
            let mut i: usize = 0;
            while i < n
                invariant
                    0 <= i <= n,
                    n == orig.len(),
                    ret@ == orig + orig.take(i as int),
                decreases n - i,
            {
                let c = ret[i];
                ret.push(c);
                proof {
                    assert(ret@ =~= orig + orig.take(i as int + 1));
                }
                i = i + 1;
            }
            proof {
                assert(ret@ =~= orig + orig);
            }
        }
        if rem.remove(Keys::single(Key::Z)) {
            let ghost da = ret@;
            ret.push('0');
            ret.push('0');
            proof {
                assert(ret@ =~= da + seq!['0', '0']);
            }
        }
    }
    assert(rem.0 == spec_num_m2(keys));
    assert(ret@ == spec_num_d2(keys));
    if rem.remove(Keys::single(Key::K)) {
        let ghost d2 = ret@;
        ret.push(':');
        ret.push('0');
        ret.push('0');
        proof {
            assert(ret@ =~= d2 + seq![':', '0', '0']);
        }
    } else if rem.remove(Keys::pair(Key::B, Key::G)) {
        let ghost d2 = ret@;
        ret.push(':');
        ret.push('0');
        ret.push('0');
        proof {
            assert(ret@ =~= d2 + seq![':', '0', '0']);
        }
    }
    assert(rem.0 == spec_num_m3(keys));
    assert(ret@ == spec_num_d3(keys));
    if !rem.is_empty() {
        return None;
    }
    Some(ret)
}

/// Whether every character of `s` is an ASCII digit.
pub open spec fn all_digits(s: Seq<char>) -> bool {
    forall|i: int| 0 <= i < s.len() ==> '0' <= #[trigger] s[i] <= '9'
}

/// Reports whether every character of `v` is an ASCII digit.
pub fn check_all_digits(v: &[char]) -> (r: bool)
    ensures
        r == all_digits(v@),
{
    let n = v.len();
    let mut i: usize = 0;
    while i < n
        invariant
            0 <= i <= n,
            n == v@.len(),
            forall|j: int| 0 <= j < i ==> '0' <= #[trigger] v@[j] <= '9',
        decreases n - i,
    {
        let c = v[i];
        if !('0' <= c && c <= '9') {
            return false;
        }
        i = i + 1;
    }
    true
}

/// ASCII uppercase folding of one character.
pub open spec fn upper_char(c: char) -> char {
    if 'a' <= c <= 'z' {
        ((c as u8) - 0x20) as char
    } else {
        c
    }
}

/// ASCII lowercase folding of one character.
pub open spec fn lower_char(c: char) -> char {
    if 'A' <= c <= 'Z' {
        ((c as u8) + 0x20) as char
    } else {
        c
    }
}

/// The case folding the formatter applies to a first character.
pub open spec fn fold_char(upper: bool, c: char) -> char {
    if upper {
        upper_char(c)
    } else {
        lower_char(c)
    }
}

/// Applies `fold_char` to one character.
pub fn fold_char_exec(upper: bool, c: char) -> (r: char)
    ensures
        r == fold_char(upper, c),
{
    if upper {
        if 'a' <= c && c <= 'z' {
            ((c as u8) - 0x20) as char
        } else {
            c
        }
    } else {
        if 'A' <= c && c <= 'Z' {
            ((c as u8) + 0x20) as char
        } else {
            c
        }
    }
}

/// An action resolved for one incoming chord: the entry to run, the
/// canonical outline it resolves (possibly spanning prior productions plus
/// the new chord), and how many trailing journal events it retracts first.
#[derive(Debug)]
pub struct Action {
    pub entry: Entry,
    pub strokes: Strokes,
    pub delete_before: usize,
}

/// The ghost form of a resolved action.
pub struct ActionModel {
    pub entry: Seq<PartModel>,
    pub strokes: Seq<Keys>,
    pub delete_before: nat,
}

impl View for Action {
    type V = ActionModel;

    open spec fn view(&self) -> ActionModel {
        ActionModel {
            entry: self.entry@,
            strokes: self.strokes@,
            delete_before: self.delete_before as nat,
        }
    }
}

/// The ghost form of a journal.
pub open spec fn journal_view(b: Seq<InputEvent>) -> Seq<EventModel> {
    b.map_values(|e: InputEvent| e@)
}

/// The text of the latest journal event, or nothing.
pub open spec fn back_text(j: Seq<EventModel>) -> Seq<char> {
    if j.len() > 0 {
        j.last().text
    } else {
        Seq::empty()
    }
}

/// What one `Verbatim` instruction does to the formatting state and the
/// pending edit: separator, orthographic fusion against the preceding text,
/// first-character case folding, and the one-shot carry.
pub open spec fn verbatim_model(
    st: InputState,
    diff: DiffModel,
    jtext: Seq<char>,
    t: Seq<char>,
) -> (InputState, DiffModel) {
    let d1 = if st.space {
        diff_append(diff, seq![' '])
    } else {
        diff
    };
    let first_pos = d1.text.len() as int;
    let before = if d1.text.len() > 0 {
        d1.text
    } else {
        jtext
    };
    let fused = if !st.space {
        crate::orthography::spec_combined(before, t)
    } else {
        None
    };
    let d2 = match fused {
        Some(c) => diff_append(diff_delete(d1, before.len(), bytes_len(before)), c),
        None => diff_append(d1, t),
    };
    let d3 = match st.caps {
        Some(b) => if first_pos < d2.text.len() {
            DiffModel { text: d2.text.update(first_pos, fold_char(b, d2.text[first_pos])), ..d2 }
        } else {
            d2
        },
        None => d2,
    };
    let st2 = if st.carry_to_next {
        InputState { carry_to_next: false, ..st }
    } else {
        InputState { caps: None, space: true, carry_to_next: false, ..st }
    };
    (st2, d3)
}

/// The result of interpreting one instruction.
pub struct StepModel {
    pub state: InputState,
    pub diff: DiffModel,
    pub cmd: Option<PloverCommand>,
}

/// The formatter state machine: one instruction against the formatting
/// state and the pending edit, given the latest journal text and whether
/// the previous instruction was a glue marker.
pub open spec fn part_model(
    st: InputState,
    diff: DiffModel,
    jtext: Seq<char>,
    part: PartModel,
    prev_glue: bool,
) -> StepModel {
    match part {
        PartModel::Verbatim(t) => {
            let (s2, d2) = verbatim_model(st, diff, jtext, t);
            StepModel { state: s2, diff: d2, cmd: None }
        },
        PartModel::SpecialPunct(p) => StepModel {
            state: InputState {
                space: true,
                caps: if p.spec_is_sentence_end() {
                    Some(true)
                } else {
                    None
                },
                ..st
            },
            diff: diff_append(diff, seq![p.spec_char()]),
            cmd: None,
        },
        PartModel::SetCaps(b) => StepModel {
            state: InputState { caps: Some(b), ..st },
            diff,
            cmd: None,
        },
        PartModel::SetSpace(b) => StepModel {
            state: InputState { space: b, ..st },
            diff,
            cmd: None,
        },
        PartModel::CarryToNext => StepModel {
            state: InputState { carry_to_next: true, ..st },
            diff,
            cmd: None,
        },
        PartModel::Glue => StepModel {
            state: if prev_glue {
                InputState { space: false, caps: None, glue: true, ..st }
            } else {
                InputState { glue: true, ..st }
            },
            diff,
            cmd: None,
        },
        PartModel::PloverCommand(c) => StepModel { state: st, diff, cmd: Some(c) },
    }
}

/// The engine during one action: formatting state, journal, pending edit,
/// and whether a quit command has been seen.
pub struct ExecModel {
    pub state: InputState,
    pub backlog: Seq<EventModel>,
    pub diff: DiffModel,
    pub quit: bool,
}

/// A `Backspace` instruction: retract the latest journal event (restoring
/// its recorded state and deleting its text), or ask for one whole-word
/// deletion when the journal is empty.
pub open spec fn backspace_model(m: ExecModel) -> ExecModel {
    if m.backlog.len() > 0 {
        let prev = m.backlog.last();
        ExecModel {
            state: prev.state_before,
            backlog: m.backlog.drop_last(),
            diff: diff_delete(m.diff, prev.text.len(), bytes_len(prev.text)),
            quit: m.quit,
        }
    } else {
        ExecModel { diff: diff_delete_words(m.diff, 1), ..m }
    }
}

/// Runs the instructions `parts[i..]` through the state machine, handling
/// engine commands, threading each instruction's glue flag into the next.
pub open spec fn run_parts_model(
    m: ExecModel,
    parts: Seq<PartModel>,
    i: int,
    prev_glue: bool,
) -> ExecModel
    decreases parts.len() - i,
{
    if i < 0 || i >= parts.len() {
        m
    } else {
        match parts[i] {
            PartModel::PloverCommand(PloverCommand::Backspace) => run_parts_model(
                backspace_model(m),
                parts,
                i + 1,
                false,
            ),
            PartModel::PloverCommand(PloverCommand::Quit) => ExecModel { quit: true, ..m },
            _ => {
                let s = part_model(m.state, m.diff, back_text(m.backlog), parts[i], prev_glue);
                run_parts_model(
                    ExecModel { state: s.state, diff: s.diff, ..m },
                    parts,
                    i + 1,
                    parts[i] is Glue,
                )
            },
        }
    }
}

/// The characters of the texts of `evs` counted together.
pub open spec fn total_chars(evs: Seq<EventModel>) -> nat
    decreases evs.len(),
{
    if evs.len() == 0 {
        0
    } else {
        total_chars(evs.drop_last()) + evs.last().text.len()
    }
}

/// The bytes of the texts of `evs` counted together.
pub open spec fn total_bytes(evs: Seq<EventModel>) -> nat
    decreases evs.len(),
{
    if evs.len() == 0 {
        0
    } else {
        total_bytes(evs.drop_last()) + bytes_len(evs.last().text)
    }
}

/// The formatting state an action restores before running: what the
/// earliest retracted event recorded, or the current state if it retracts
/// nothing.
pub open spec fn retract_state(state: InputState, j: Seq<EventModel>, a: ActionModel) -> InputState
    recommends
        a.delete_before <= j.len(),
{
    if a.delete_before > 0 {
        j[j.len() - a.delete_before].state_before
    } else {
        state
    }
}

/// The engine as an action's instructions start running: state restored
/// with the transient glue flag cleared, the retracted events removed, and
/// their text charged to the delete span.
pub open spec fn action_m0(state: InputState, j: Seq<EventModel>, a: ActionModel) -> ExecModel
    recommends
        a.delete_before <= j.len(),
{
    let first_removed = j.len() - a.delete_before;
    let retracted = j.skip(first_removed);
    ExecModel {
        state: InputState { glue: false, ..retract_state(state, j, a) },
        backlog: j.take(first_removed),
        diff: DiffModel {
            words: 0,
            chars: total_chars(retracted),
            bytes: total_bytes(retracted),
            text: Seq::empty(),
        },
        quit: false,
    }
}

/// The executor: retract what the action asks (restoring the state recorded
/// by the earliest retracted event and charging the retracted text to the
/// delete span), run the entry, then evict at capacity and journal the
/// production if it emitted text.
pub open spec fn run_action_model(state: InputState, j: Seq<EventModel>, a: ActionModel) -> ExecModel
    recommends
        a.delete_before <= j.len(),
{
    let st1 = retract_state(state, j, a);
    let m0 = action_m0(state, j, a);
    let m1 = run_parts_model(m0, a.entry, 0, st1.glue);
    if m1.quit {
        m1
    } else {
        let j2 = if m1.backlog.len() == BACKLOG_DEPTH {
            m1.backlog.drop_first()
        } else {
            m1.backlog
        };
        let j3 = if m1.diff.text.len() > 0 {
            j2.push(EventModel { strokes: a.strokes, text: m1.diff.text, state_before: st1 })
        } else {
            j2
        };
        ExecModel { state: m1.state, backlog: j3, diff: m1.diff, quit: false }
    }
}

/// The literal fallback for a chord no rule or definition covers: a
/// single-chord entry writing the chord's own steno notation.
pub open spec fn fallback_model(new: Keys) -> ActionModel {
    ActionModel {
        entry: seq![PartModel::Verbatim(new.spec_text())],
        strokes: seq![new],
        delete_before: 0,
    }
}

/// The chords of the events of `evs`, concatenated in order.
pub open spec fn concat_strokes(evs: Seq<EventModel>) -> Seq<Keys>
    decreases evs.len(),
{
    if evs.len() == 0 {
        Seq::empty()
    } else {
        concat_strokes(evs.drop_last()) + evs.last().strokes
    }
}

/// The candidate outline that keeps the last `m - i` journal events: their
/// chords in order, followed by the new chord.
pub open spec fn window(j: Seq<EventModel>, m: nat, i: nat, new: Keys) -> Seq<Keys>
    recommends
        i <= m <= j.len(),
{
    concat_strokes(j.subrange(j.len() - m + i, j.len() as int)) + seq![new]
}

/// Builds an action from a literal text for a single chord.
pub fn make_text_action(text: Vec<char>, keys: Keys) -> (r: Action)
    ensures
        r@ == (ActionModel {
            entry: seq![PartModel::Verbatim(text@)],
            strokes: seq![keys],
            delete_before: 0,
        }),
{
    let mut parts: Vec<EntryPart> = Vec::new();
    parts.push(EntryPart::Verbatim(text));
    let r = make_simple_action(Entry(parts), keys);
    proof {
        assert(r@.entry =~= seq![PartModel::Verbatim(text@)]);
    }
    r
}

/// Builds an action that runs `entry` for the single chord `keys`.
pub fn make_simple_action(entry: Entry, keys: Keys) -> (r: Action)
    ensures
        r@ == (ActionModel { entry: entry@, strokes: seq![keys], delete_before: 0 }),
{
    let mut sv: Vec<Keys> = Vec::new();
    sv.push(keys);
    let r = Action { entry, strokes: Strokes(sv), delete_before: 0 };
    proof {
        assert(r@.strokes =~= seq![keys]);
    }
    r
}

/// Builds the literal fallback action for a chord.
pub fn make_fallback_action(keys: Keys) -> (r: Action)
    ensures
        r@ == fallback_model(keys),
{
    make_text_action(keys.text(), keys)
}

/// Splitting a stretch of events splits their concatenated chords.
proof fn lemma_concat_strokes_split(j: Seq<EventModel>, a: int, b: int, c: int)
    requires
        0 <= a <= b <= c <= j.len(),
    ensures
        concat_strokes(j.subrange(a, c)) == concat_strokes(j.subrange(a, b)) + concat_strokes(
            j.subrange(b, c),
        ),
    decreases c - b,
{
    if b == c {
        assert(j.subrange(b, c) =~= Seq::<EventModel>::empty());
        assert(concat_strokes(j.subrange(a, c)) =~= concat_strokes(j.subrange(a, b))
            + concat_strokes(j.subrange(b, c)));
    } else {
        lemma_concat_strokes_split(j, a, b, c - 1);
        assert(j.subrange(a, c).drop_last() =~= j.subrange(a, c - 1));
        assert(j.subrange(b, c).drop_last() =~= j.subrange(b, c - 1));
        assert(j.subrange(a, c).last() == j[c - 1]);
        assert(j.subrange(b, c).last() == j[c - 1]);
        assert(concat_strokes(j.subrange(a, b)) + concat_strokes(j.subrange(b, c - 1)) + j[c
            - 1].strokes =~= concat_strokes(j.subrange(a, b)) + (concat_strokes(
            j.subrange(b, c - 1),
        ) + j[c - 1].strokes));
    }
}

/// Copies a text.
fn copy_chars(v: &Vec<char>) -> (r: Vec<char>)
    ensures
        r@ == v@,
{
    let n = v.len();
    let mut r: Vec<char> = Vec::new();
    let mut i: usize = 0;
    while i < n
        invariant
            0 <= i <= n,
            n == v@.len(),
            r@ == v@.take(i as int),
        decreases n - i,
    {
        r.push(v[i]);
        proof {
            assert(r@ =~= v@.take(i as int + 1));
        }
        i = i + 1;
    }
    proof {
        assert(r@ =~= v@);
    }
    r
}

/// The translation engine: a dictionary, the persistent formatting state,
/// and the bounded journal of committed productions.
#[derive(Debug)]
pub struct Steno<D> {
    dict: D,
    state: InputState,
    backlog: std::collections::VecDeque<InputEvent>,
}

impl<D: Dict> Steno<D> {
    /// The formatting state the next chord will see.
    pub closed spec fn formatting(&self) -> InputState {
        self.state
    }

    /// The journal of committed productions, oldest first.
    pub closed spec fn journal(&self) -> Seq<EventModel> {
        journal_view(self.backlog@)
    }

    /// The dictionary the engine resolves against.
    pub closed spec fn dictionary(&self) -> D {
        self.dict
    }

    /// The engine's invariant: the journal is bounded by its capacity and
    /// every journaled production emitted some text.
    pub open spec fn wf(&self) -> bool {
        &&& self.journal().len() <= BACKLOG_DEPTH
        &&& forall|i: int|
            0 <= i < self.journal().len() ==> 0 < #[trigger] self.journal()[i].text.len()
                <= usize::MAX
    }

    /// A fresh engine over `dict`.
    pub fn new(dict: D) -> (r: Steno<D>)
        ensures
            r.wf(),
            r.journal().len() == 0,
            r.formatting() == InputState::initial(),
            r.dictionary() == dict,
    {
        let r = Steno {
            dict,
            state: InputState { caps: Some(true), space: false, carry_to_next: false, glue: false },
            backlog: std::collections::VecDeque::with_capacity(BACKLOG_DEPTH),
        };
        proof {
            assert(r.journal() =~= Seq::<EventModel>::empty());
        }
        r
    }

    /// The resolver's search: the first (longest) candidate window, dropping
    /// whole events from the oldest end, whose outline the dictionary
    /// defines; the single-chord window last; the literal fallback if none.
    pub open spec fn spec_find_from(&self, new: Keys, m: nat, i: nat) -> ActionModel
        recommends
            i <= m <= self.journal().len(),
        decreases m - i,
    {
        let w = window(self.journal(), m, i, new);
        match self.dictionary().spec_get(w) {
            Some(e) => ActionModel { entry: e@, strokes: w, delete_before: (m - i) as nat },
            None => if i >= m {
                fallback_model(new)
            } else {
                self.spec_find_from(new, m, (i + 1) as nat)
            },
        }
    }

    /// What the resolver decides for one incoming chord: the numeral rule
    /// for number-bar chords (glued when purely numeric, literal fallback
    /// when not a numeral pattern), else the longest dictionary match over
    /// the most recent journal events, else the literal fallback.
    pub open spec fn spec_find(&self, new: Keys) -> ActionModel {
        if new.has(Key::NumberBar) {
            match spec_make_numbers(new) {
                Some(text) => ActionModel {
                    entry: if all_digits(text) {
                        seq![PartModel::Glue, PartModel::Verbatim(text)]
                    } else {
                        seq![PartModel::Verbatim(text)]
                    },
                    strokes: seq![new],
                    delete_before: 0,
                },
                None => fallback_model(new),
            }
        } else {
            let m = if self.dictionary().spec_max_strokes() < self.journal().len() {
                self.dictionary().spec_max_strokes()
            } else {
                self.journal().len()
            };
            self.spec_find_from(new, m, 0)
        }
    }

    /// Resolves one incoming chord to an action, per `spec_find`.
    pub fn find_action(&self, this_keys: Keys) -> (r: Action)
        requires
            self.wf(),
        ensures
            r@ == self.spec_find(this_keys),
            r@.delete_before <= self.journal().len(),
    {
        if this_keys.contains(Key::NumberBar) {
            match make_numbers(this_keys) {
                Some(text) => {
                    let glue = check_all_digits(text.as_slice());
                    let mut parts: Vec<EntryPart> = Vec::new();
                    if glue {
                        parts.push(EntryPart::Glue);
                    }
                    parts.push(EntryPart::Verbatim(text));
                    let r = make_simple_action(Entry(parts), this_keys);
                    proof {
                        if glue {
                            assert(r@.entry =~= seq![
                                PartModel::Glue,
                                PartModel::Verbatim(spec_make_numbers(this_keys).unwrap()),
                            ]);
                        } else {
                            assert(r@.entry =~= seq![
                                PartModel::Verbatim(spec_make_numbers(this_keys).unwrap()),
                            ]);
                        }
                    }
                    r
                },
                None => make_fallback_action(this_keys),
            }
        } else {
            let max_strokes = self.dict.max_strokes();
            let blen = self.backlog.len();
            let m = if max_strokes < blen {
                max_strokes
            } else {
                blen
            };
            let start = blen - m;
            let ghost j = self.journal();

            let mut all: Vec<Keys> = Vec::new();
            let mut idx: usize = start;
            while idx < blen
                invariant
                    start <= idx <= blen,
                    blen == j.len(),
                    j == self.journal(),
                    all@ == concat_strokes(j.subrange(start as int, idx as int)),
                decreases blen - idx,
            {
                let ev = &self.backlog[idx];
                let ns = ev.strokes.0.len();
                let mut k: usize = 0;
                while k < ns
                    invariant
                        0 <= k <= ns,
                        ns == ev.strokes@.len(),
                        ev == &self.backlog[idx as int],
                        start <= idx < blen,
                        blen == j.len(),
                        j == self.journal(),
                        all@ == concat_strokes(j.subrange(start as int, idx as int))
                            + ev.strokes@.take(k as int),
                    decreases ns - k,
                {
                    all.push(ev.strokes.0[k]);
                    proof {
                        assert(all@ =~= concat_strokes(j.subrange(start as int, idx as int))
                            + ev.strokes@.take(k as int + 1));
                    }
                    k = k + 1;
                }
                proof {
                    assert(j.subrange(start as int, idx as int + 1).drop_last() =~= j.subrange(
                        start as int,
                        idx as int,
                    ));
                    assert(j.subrange(start as int, idx as int + 1).last() == j[idx as int]);
                    assert(j[idx as int].strokes == ev.strokes@);
                    assert(ev.strokes@.take(ns as int) =~= ev.strokes@);
                    assert(all@ =~= concat_strokes(j.subrange(start as int, idx as int + 1)));
                }
                idx = idx + 1;
            }
            all.push(this_keys);
            proof {
                assert(all@ =~= concat_strokes(j.subrange(start as int, blen as int)) + seq![
                    this_keys,
                ]);
                assert(all@ == window(j, m as nat, 0, this_keys));
            }

            let total = all.len();
            let mut skip: usize = 0;
            let mut i: usize = 0;
            while i <= m
                invariant
                    0 <= i <= m + 1,
                    m <= BACKLOG_DEPTH,
                    m <= blen == j.len(),
                    start == blen - m,
                    j == self.journal(),
                    total == all@.len(),
                    all@ == window(j, m as nat, 0, this_keys),
                    i <= m ==> skip == concat_strokes(
                        j.subrange(start as int, start + i as int),
                    ).len(),
                    skip <= total - 1,
                    i <= m ==> self.spec_find(this_keys) == self.spec_find_from(
                        this_keys,
                        m as nat,
                        i as nat,
                    ),
                    i > m ==> self.spec_find(this_keys) == fallback_model(this_keys),
                decreases m + 1 - i,
            {
                proof {
                    lemma_concat_strokes_split(j, start as int, start + i as int, blen as int);
                    assert(all@.subrange(skip as int, total as int) =~= concat_strokes(
                        j.subrange(start + i as int, blen as int),
                    ) + seq![this_keys]);
                    assert(all@.subrange(skip as int, total as int) == window(
                        j,
                        m as nat,
                        i as nat,
                        this_keys,
                    ));
                }
                let sl: &[Keys] = all.as_slice();
                let w: &[Keys] = &sl[skip..total];
                match self.dict.get(w) {
                    Some(entry) => {
                        let mut sv: Vec<Keys> = Vec::new();
                        let mut q: usize = skip;
                        while q < total
                            invariant
                                skip <= q <= total,
                                total == all@.len(),
                                sv@ == all@.subrange(skip as int, q as int),
                            decreases total - q,
                        {
                            sv.push(all[q]);
                            proof {
                                assert(sv@ =~= all@.subrange(skip as int, q as int + 1));
                            }
                            q = q + 1;
                        }
                        proof {
                            assert(sv@ =~= all@.subrange(skip as int, total as int));
                        }
                        let r = Action {
                            entry,
                            strokes: Strokes(sv),
                            delete_before: m - i,
                        };
                        proof {
                            assert(r@.entry == self.dictionary().spec_get(
                                window(j, m as nat, i as nat, this_keys),
                            ).unwrap()@);
                            assert(r@ == self.spec_find_from(this_keys, m as nat, i as nat));
                        }
                        return r;
                    },
                    None => {
                        if i < m {
                            let ev = &self.backlog[start + i];
                            let ns = ev.strokes.num_strokes();
                            proof {
                                lemma_concat_strokes_split(
                                    j,
                                    start as int,
                                    start + i as int,
                                    start + i as int + 1,
                                );
                                reveal_with_fuel(concat_strokes, 3);
                                assert(j.subrange(start + i as int, start + i + 1 as int)
                                    =~= seq![j[start + i as int]]);
                                assert(seq![j[start + i as int]].drop_last()
                                    =~= Seq::<EventModel>::empty());
                                assert(concat_strokes(seq![j[start + i as int]])
                                    =~= j[start + i as int].strokes);
                                lemma_concat_strokes_split(
                                    j,
                                    start + i as int,
                                    blen as int,
                                    blen as int,
                                );
                                lemma_concat_strokes_split(
                                    j,
                                    start + i as int,
                                    start + i as int + 1,
                                    blen as int,
                                );
                                assert(window(j, m as nat, i as nat, this_keys).len() >= ns + 1);
                            }
                            skip = skip + ns;
                        }
                        i = i + 1;
                    },
                }
            }
            make_fallback_action(this_keys)
        }
    }
}

impl Output {
    /// Stages one character.
    fn push_one(&mut self, c: char)
        ensures
            final(self)@ == diff_append(old(self)@, seq![c]),
    {
        self.append.push(c);
        proof {
            assert(self@.text =~= diff_append(old(self)@, seq![c]).text);
        }
    }

    /// Rewrites the staged character at `i`.
    fn set_char(&mut self, i: usize, c: char)
        requires
            i < old(self)@.text.len(),
        ensures
            final(self)@ == (DiffModel { text: old(self)@.text.update(i as int, c), ..old(self)@ }),
    {
        let sl = self.append.as_mut_slice();
        sl[i] = c;
    }
}

impl<D: Dict> Steno<D> {
    /// Interprets one instruction against the formatting state, writing into
    /// the pending edit, per `part_model`; an engine command is signalled to
    /// the caller untouched.
    fn run_part(&mut self, part: &EntryPart, output: &mut Output, prev_was_glue: bool) -> (r:
        Result<(), PloverCommand>)
        requires
            old(output)@.chars + 0x1_0000_0000_0000_0000 <= u128::MAX,
            old(output)@.bytes + 0x4_0000_0000_0000_0000 <= u128::MAX,
            back_text(old(self).journal()).len() <= usize::MAX,
        ensures
            ({
                let s = part_model(
                    old(self).formatting(),
                    old(output)@,
                    back_text(old(self).journal()),
                    part@,
                    prev_was_glue,
                );
                &&& final(self).journal() == old(self).journal()
                &&& final(self).dictionary() == old(self).dictionary()
                &&& match r {
                    Ok(u) => s.cmd is None && final(self).formatting() == s.state
                        && final(output)@ == s.diff,
                    Err(c) => s.cmd == Some(c)
                        && final(self).formatting() == old(self).formatting()
                        && final(output)@ == old(output)@,
                }
            }),
    {
        match part {
            EntryPart::Verbatim(text) => {
                let ghost st0 = self.state;
                let ghost jt = back_text(old(self).journal());
                if self.state.space {
                    output.push_one(' ');
                }
                let ghost d1 = output@;
                let first_pos = output.append.len();
                let mut fused: Option<Vec<char>> = None;
                let mut before_m = CharsOrBytes::zero();
                if !self.state.space {
                    if output.append.len() > 0 {
                        before_m = CharsOrBytes::for_text(output.append.as_slice());
                        proof {
                            crate::chars_or_bytes::lemma_bytes_len_bound(output.append@);
                        }
                        fused = crate::orthography::apply_orthography_rules(
                            output.append.as_slice(),
                            text.as_slice(),
                        );
                    } else if self.backlog.len() > 0 {
                        let bl = self.backlog.len();
                        let ev = &self.backlog[bl - 1];
                        proof {
                            assert(ev@ == old(self).journal().last());
                            assert(ev.text@ == jt);
                        }
                        before_m = CharsOrBytes::for_text(ev.text.as_slice());
                        proof {
                            crate::chars_or_bytes::lemma_bytes_len_bound(ev.text@);
                        }
                        fused = crate::orthography::apply_orthography_rules(
                            ev.text.as_slice(),
                            text.as_slice(),
                        );
                    }
                }
                let ghost before = if d1.text.len() > 0 { d1.text } else { jt };
                proof {
                    if !st0.space {
                        assert(fused is Some <==> crate::orthography::spec_combined(
                            before,
                            text@,
                        ) is Some);
                    }
                }
                match fused {
                    Some(c) => {
                        output.replace(before_m, c.as_slice());
                    },
                    None => {
                        output.append(text.as_slice());
                    },
                }
                let ghost d2 = output@;
                match self.state.caps {
                    Some(b) => {
                        if first_pos < output.append.len() {
                            let cch = output.append[first_pos];
                            let f = fold_char_exec(b, cch);
                            output.set_char(first_pos, f);
                        }
                    },
                    None => {},
                }
                if self.state.carry_to_next {
                    self.state.carry_to_next = false;
                } else {
                    self.state.caps = None;
                    self.state.space = true;
                    self.state.carry_to_next = false;
                }
                proof {
                    let s = part_model(st0, old(output)@, jt, part@, prev_was_glue);
                    assert(output@ == s.diff);
                    assert(self.state == s.state);
                }
                Ok(())
            },
            EntryPart::SpecialPunct(punct) => {
                output.push_one(punct.as_char());
                self.state.space = true;
                self.state.caps = if punct.is_sentence_end() {
                    Some(true)
                } else {
                    None
                };
                Ok(())
            },
            EntryPart::SetCaps(set) => {
                self.state.caps = Some(*set);
                Ok(())
            },
            EntryPart::SetSpace(set) => {
                self.state.space = *set;
                Ok(())
            },
            EntryPart::CarryToNext => {
                self.state.carry_to_next = true;
                Ok(())
            },
            EntryPart::Glue => {
                if prev_was_glue {
                    self.state.space = false;
                    self.state.caps = None;
                }
                self.state.glue = true;
                Ok(())
            },
            EntryPart::PloverCommand(command) => Err(*command),
        }
    }
}

/// One instruction grows the delete span only when nothing was staged,
/// by at most one journal text, and then leaves text staged.
proof fn lemma_part_budget(st: InputState, d: DiffModel, jt: Seq<char>, p: PartModel, g: bool)
    requires
        jt.len() <= usize::MAX,
    ensures
        ({
            let s = part_model(st, d, jt, p, g);
            &&& s.diff.words == d.words
            &&& s.diff.chars <= d.chars + 0x1_0000_0000_0000_0000
            &&& s.diff.bytes <= d.bytes + 0x4_0000_0000_0000_0000
            &&& ((s.diff.chars > d.chars || s.diff.bytes > d.bytes) ==> (d.text.len() == 0
                && s.diff.text.len() > 0))
            &&& (d.text.len() > 0 ==> s.diff.text.len() > 0)
        }),
{
    crate::chars_or_bytes::lemma_bytes_len_bound(jt);
    match p {
        PartModel::Verbatim(t) => {
            let d1 = if st.space {
                diff_append(d, seq![' '])
            } else {
                d
            };
            let before = if d1.text.len() > 0 {
                d1.text
            } else {
                jt
            };
            let fused = if !st.space {
                crate::orthography::spec_combined(before, t)
            } else {
                None
            };
            if fused is Some {
                assert(t.len() > 0);
                assert(fused.unwrap().len() > 0);
                if d1.text.len() > 0 {
                    assert(before.len() == d1.text.len());
                    assert(diff_delete(d1, before.len(), bytes_len(before)).chars == d1.chars);
                } else {
                    crate::chars_or_bytes::lemma_bytes_len_bound(before);
                }
            }
        },
        _ => {},
    }
}

/// A popped journal text grows the delete span by at most its own measure.
proof fn lemma_backspace_budget(m: ExecModel)
    requires
        m.backlog.len() > 0 ==> m.backlog.last().text.len() <= usize::MAX,
    ensures
        ({
            let b = backspace_model(m);
            &&& b.diff.chars <= m.diff.chars + 0x1_0000_0000_0000_0000
            &&& b.diff.bytes <= m.diff.bytes + 0x4_0000_0000_0000_0000
            &&& b.diff.words <= m.diff.words + 1
            &&& b.backlog.len() <= m.backlog.len()
        }),
{
    if m.backlog.len() > 0 {
        crate::chars_or_bytes::lemma_bytes_len_bound(m.backlog.last().text);
    }
}

impl<D: Dict> Steno<D> {
    /// Commits a resolved action, per `run_action_model`: retracts what it
    /// asks, runs its entry through the formatter, and journals the
    /// production. A quit command stops the entry and is signalled to the
    /// caller, the edits so far staying applied to the engine.
    pub fn run_action(&mut self, action: Action) -> (r: Result<Output, SpecialAction>)
        requires
            old(self).wf(),
            action@.delete_before <= old(self).journal().len(),
        ensures
            ({
                let m = run_action_model(old(self).formatting(), old(self).journal(), action@);
                &&& final(self).wf()
                &&& final(self).dictionary() == old(self).dictionary()
                &&& final(self).formatting() == m.state
                &&& final(self).journal() == m.backlog
                &&& match r {
                    Ok(out) => !m.quit && out@ == m.diff,
                    Err(sa) => m.quit && (sa is Quit),
                }
            }),
    {
        let ghost am = action@;
        let ghost j0 = self.journal();
        let blen = self.backlog.len();
        let first_removed = blen - action.delete_before;
        if action.delete_before > 0 {
            self.state = self.backlog[first_removed].state_before;
            proof {
                assert(self.state == j0[first_removed as int].state_before);
            }
        }
        let ghost st1 = self.state;

        let mut delete = CharsOrBytes::zero();
        let mut idx: usize = first_removed;
        proof {
            assert(j0.subrange(first_removed as int, first_removed as int)
                =~= Seq::<EventModel>::empty());
        }
        while idx < blen
            invariant
                first_removed <= idx <= blen,
                blen <= BACKLOG_DEPTH,
                blen == self.backlog@.len(),
                j0 == journal_view(self.backlog@),
                j0.len() == blen,
                forall|q: int| 0 <= q < blen ==> 0 < #[trigger] j0[q].text.len() <= usize::MAX,
                delete.chars == total_chars(j0.subrange(first_removed as int, idx as int)),
                delete.bytes == total_bytes(j0.subrange(first_removed as int, idx as int)),
                delete.chars <= (idx - first_removed) * 0x1_0000_0000_0000_0000,
                delete.bytes <= (idx - first_removed) * 0x4_0000_0000_0000_0000,
            decreases blen - idx,
        {
            let t = CharsOrBytes::for_text(self.backlog[idx].text.as_slice());
            proof {
                assert(self.backlog[idx as int]@ == j0[idx as int]);
                crate::chars_or_bytes::lemma_bytes_len_bound(j0[idx as int].text);
                assert(j0.subrange(first_removed as int, idx as int + 1).drop_last()
                    =~= j0.subrange(first_removed as int, idx as int));
                assert(j0.subrange(first_removed as int, idx as int + 1).last()
                    == j0[idx as int]);
            }
            delete = delete.plus(t);
            idx = idx + 1;
        }
        proof {
            assert(j0.subrange(first_removed as int, blen as int) =~= j0.skip(
                first_removed as int,
            ));
        }
        self.backlog.truncate(first_removed);
        proof {
            assert(journal_view(self.backlog@) =~= j0.take(first_removed as int));
        }
        let state_before = self.state;
        let mut output = Output::new(delete);
        self.state.glue = false;
        let ghost m0 = ExecModel {
            state: self.state,
            backlog: self.journal(),
            diff: output@,
            quit: false,
        };
        proof {
            assert(m0.diff.text =~= Seq::<char>::empty());
            assert(m0.backlog.len() <= BACKLOG_DEPTH);
        }

        let n = action.entry.0.len();
        let ghost parts = action.entry@;
        let mut i: usize = 0;
        let mut prev_glue: bool = state_before.glue;
        while i < n
            invariant
                0 <= i <= n,
                n == action.entry.0@.len(),
                parts == action.entry@,
                am == action@,
                j0 == old(self).journal(),
                m0.backlog.len() <= BACKLOG_DEPTH,
                self.journal().len() <= m0.backlog.len(),
                forall|q: int|
                    0 <= q < self.journal().len() ==> #[trigger] self.journal()[q]
                        == m0.backlog[q],
                forall|q: int|
                    0 <= q < m0.backlog.len() ==> 0 < #[trigger] m0.backlog[q].text.len()
                        <= usize::MAX,
                self.dictionary() == old(self).dictionary(),
                run_parts_model(m0, parts, 0, st1.glue).quit ==> run_action_model(
                    old(self).formatting(),
                    j0,
                    am,
                ) == run_parts_model(m0, parts, 0, st1.glue),
                run_parts_model(m0, parts, 0, st1.glue) == run_parts_model(
                    ExecModel {
                        state: self.state,
                        backlog: self.journal(),
                        diff: output@,
                        quit: false,
                    },
                    parts,
                    i as int,
                    prev_glue,
                ),
                output@.words <= i,
                output@.chars <= (1001 + 2 * (m0.backlog.len() - self.journal().len()))
                    * 0x4_0000_0000_0000_0000,
                output@.bytes <= (1001 + 2 * (m0.backlog.len() - self.journal().len()))
                    * 0x4_0000_0000_0000_0000,
                output@.text.len() == 0 ==> output@.chars <= (1000 + 2 * (m0.backlog.len()
                    - self.journal().len())) * 0x4_0000_0000_0000_0000,
                output@.text.len() == 0 ==> output@.bytes <= (1000 + 2 * (m0.backlog.len()
                    - self.journal().len())) * 0x4_0000_0000_0000_0000,
            decreases n - i,
        {
            let ghost cur = ExecModel {
                state: self.state,
                backlog: self.journal(),
                diff: output@,
                quit: false,
            };
            let part = &action.entry.0[i];
            proof {
                assert(part@ == parts[i as int]);
                if self.journal().len() > 0 {
                    assert(self.journal().last() == m0.backlog[self.journal().len() - 1]);
                }
                lemma_part_budget(
                    cur.state,
                    cur.diff,
                    back_text(cur.backlog),
                    parts[i as int],
                    prev_glue,
                );
            }
            let res = self.run_part(part, &mut output, prev_glue);
            match res {
                Ok(u) => {
                    let is_glue = match part {
                        EntryPart::Glue => true,
                        _ => false,
                    };
                    proof {
                        let sm = part_model(
                            cur.state,
                            cur.diff,
                            back_text(cur.backlog),
                            parts[i as int],
                            prev_glue,
                        );
                        assert(run_parts_model(cur, parts, i as int, prev_glue)
                            == run_parts_model(
                            ExecModel { state: sm.state, diff: sm.diff, ..cur },
                            parts,
                            i as int + 1,
                            parts[i as int] is Glue,
                        ));
                        assert(is_glue == (parts[i as int] is Glue));
                    }
                    prev_glue = is_glue;
                },
                Err(cmd) => {
                    match cmd {
                        PloverCommand::Backspace => {
                            proof {
                                if cur.backlog.len() > 0 {
                                    assert(cur.backlog.last() == m0.backlog[cur.backlog.len()
                                        - 1]);
                                }
                                lemma_backspace_budget(cur);
                            }
                            let popped = self.backlog.pop_back();
                            match popped {
                                Some(prev) => {
                                    proof {
                                        assert(prev@ == cur.backlog.last());
                                        assert(journal_view(self.backlog@) =~= cur
                                            .backlog.drop_last());
                                        crate::chars_or_bytes::lemma_bytes_len_bound(prev.text@);
                                    }
                                    self.state = prev.state_before;
                                    let pm = CharsOrBytes::for_text(prev.text.as_slice());
                                    output.delete(pm);
                                },
                                None => {
                                    proof {
                                        assert(cur.backlog.len() == 0);
                                        assert(journal_view(self.backlog@) =~= cur.backlog);
                                    }
                                    output.delete_words(1);
                                },
                            }
                            proof {
                                assert((ExecModel {
                                    state: self.state,
                                    backlog: self.journal(),
                                    diff: output@,
                                    quit: false,
                                }) == backspace_model(cur));
                                assert(run_parts_model(cur, parts, i as int, prev_glue)
                                    == run_parts_model(
                                    backspace_model(cur),
                                    parts,
                                    i as int + 1,
                                    false,
                                ));
                            }
                            prev_glue = false;
                        },
                        PloverCommand::Quit => {
                            proof {
                                assert(run_parts_model(cur, parts, i as int, prev_glue)
                                    == (ExecModel {
                                    state: cur.state,
                                    backlog: cur.backlog,
                                    diff: cur.diff,
                                    quit: true,
                                }));
                                assert forall|q: int|
                                    0 <= q < self.journal().len() implies 0
                                    < #[trigger] self.journal()[q].text.len() <= usize::MAX by {
                                    assert(self.journal()[q] == m0.backlog[q]);
                                }
                                assert(run_action_model(old(self).formatting(), j0, am)
                                    == (ExecModel {
                                    state: cur.state,
                                    backlog: cur.backlog,
                                    diff: cur.diff,
                                    quit: true,
                                }));
                            }
                            return Err(SpecialAction::Quit);
                        },
                    }
                },
            }
            i = i + 1;
        }
        let ghost m1 = run_parts_model(m0, parts, 0, st1.glue);
        proof {
            assert(m1 == (ExecModel {
                state: self.state,
                backlog: self.journal(),
                diff: output@,
                quit: false,
            }));
        }
        let ghost j2 = if m1.backlog.len() == BACKLOG_DEPTH as nat {
            m1.backlog.drop_first()
        } else {
            m1.backlog
        };
        let ghost pushed = EventModel { strokes: am.strokes, text: m1.diff.text, state_before: st1 };
        let ghost j3 = if m1.diff.text.len() > 0 {
            j2.push(pushed)
        } else {
            j2
        };
        if self.backlog.len() == BACKLOG_DEPTH {
            let ghost jv = self.journal();
            let _evicted = self.backlog.pop_front();
            proof {
                assert(journal_view(self.backlog@) =~= jv.drop_first());
            }
        }
        proof {
            assert(self.journal() == j2);
        }
        if output.append.len() > 0 {
            let text_copy = copy_chars(&output.append);
            self.backlog.push_back(
                InputEvent { strokes: action.strokes, text: text_copy, state_before },
            );
            proof {
                assert(journal_view(self.backlog@) =~= j2.push(pushed));
            }
        }
        proof {
            assert(self.journal() == j3);
            assert(run_action_model(old(self).formatting(), j0, am) == (ExecModel {
                state: m1.state,
                backlog: j3,
                diff: m1.diff,
                quit: false,
            }));
            assert(j3.len() <= BACKLOG_DEPTH);
            assert forall|q: int|
                0 <= q < j3.len() implies 0 < #[trigger] j3[q].text.len() <= usize::MAX by {
                if m1.diff.text.len() > 0 && q == j3.len() - 1 {
                    assert(j3[q] == pushed);
                } else {
                    if m1.backlog.len() == BACKLOG_DEPTH as nat {
                        assert(j3[q] == m1.backlog[q + 1]);
                        assert(m1.backlog[q + 1] == m0.backlog[q + 1]);
                    } else {
                        assert(j3[q] == m1.backlog[q]);
                        assert(m1.backlog[q] == m0.backlog[q]);
                    }
                }
            }
        }
        Ok(output)
    }

    /// How many productions the journal currently holds.
    pub fn journal_len(&self) -> (r: usize)
        ensures
            r == self.journal().len(),
    {
        self.backlog.len()
    }

    /// Resolves and commits one incoming chord: `find_action` then
    /// `run_action`.
    pub fn handle_keys(&mut self, keys: Keys) -> (r: Result<Output, SpecialAction>)
        requires
            old(self).wf(),
        ensures
            ({
                let m = run_action_model(
                    old(self).formatting(),
                    old(self).journal(),
                    old(self).spec_find(keys),
                );
                &&& final(self).wf()
                &&& final(self).dictionary() == old(self).dictionary()
                &&& final(self).formatting() == m.state
                &&& final(self).journal() == m.backlog
                &&& match r {
                    Ok(out) => !m.quit && out@ == m.diff,
                    Err(sa) => m.quit && (sa is Quit),
                }
            }),
    {
        let action = self.find_action(keys);
        self.run_action(action)
    }
}

/// Running instructions never lengthens the journal.
proof fn lemma_run_parts_backlog(m: ExecModel, parts: Seq<PartModel>, i: int, g: bool)
    ensures
        run_parts_model(m, parts, i, g).backlog.len() <= m.backlog.len(),
    decreases parts.len() - i,
{
    if 0 <= i < parts.len() {
        match parts[i] {
            PartModel::PloverCommand(PloverCommand::Backspace) => {
                lemma_run_parts_backlog(backspace_model(m), parts, i + 1, false);
            },
            PartModel::PloverCommand(PloverCommand::Quit) => {},
            _ => {
                let st = part_model(m.state, m.diff, back_text(m.backlog), parts[i], g);
                lemma_run_parts_backlog(
                    ExecModel { state: st.state, diff: st.diff, ..m },
                    parts,
                    i + 1,
                    parts[i] is Glue,
                );
            },
        }
    }
}

/// The journal never exceeds its capacity: an action run against a journal
/// within capacity leaves a journal within capacity, the oldest event
/// evicted first when a new production would overflow it.
pub proof fn lemma_journal_bounded(state: InputState, j: Seq<EventModel>, a: ActionModel)
    requires
        j.len() <= BACKLOG_DEPTH,
        a.delete_before <= j.len(),
    ensures
        run_action_model(state, j, a).backlog.len() <= BACKLOG_DEPTH,
{
    let first_removed = j.len() - a.delete_before;
    let st1 = if a.delete_before > 0 {
        j[first_removed].state_before
    } else {
        state
    };
    let retracted = j.skip(first_removed);
    let m0 = ExecModel {
        state: InputState { glue: false, ..st1 },
        backlog: j.take(first_removed),
        diff: DiffModel {
            words: 0,
            chars: total_chars(retracted),
            bytes: total_bytes(retracted),
            text: Seq::empty(),
        },
        quit: false,
    };
    lemma_run_parts_backlog(m0, a.entry, 0, st1.glue);
}

/// An unrecognized chord with an empty journal and no dictionary match
/// resolves to the literal fallback entry with no retraction.
pub proof fn lemma_fallback_on_unmatched<D: Dict>(s: Steno<D>, keys: Keys)
    requires
        s.journal().len() == 0,
        !keys.has(Key::NumberBar),
        s.dictionary().spec_get(seq![keys]) is None,
    ensures
        s.spec_find(keys) == fallback_model(keys),
        s.spec_find(keys).delete_before == 0,
{
    reveal_with_fuel(concat_strokes, 2);
    assert(s.journal().subrange(0, 0) =~= Seq::<EventModel>::empty());
    assert(window(s.journal(), 0, 0, keys) =~= seq![keys]);
    assert(s.dictionary().spec_get(window(s.journal(), 0, 0, keys)) is None);
}

/// Longest-match preference: with the one-chord production of `a`
/// journaled and the two-chord outline `a b` defined, the next chord `b`
/// resolves to the two-chord entry and retracts the production of `a`.
pub proof fn lemma_longest_match<D: Dict>(s: Steno<D>, a: Keys, b: Keys, e2: Entry)
    requires
        s.journal().len() == 1,
        s.journal()[0].strokes == seq![a],
        !b.has(Key::NumberBar),
        s.dictionary().spec_max_strokes() >= 2,
        s.dictionary().spec_get(seq![a, b]) == Some(e2),
    ensures
        s.spec_find(b).entry == e2@,
        s.spec_find(b).strokes == seq![a, b],
        s.spec_find(b).delete_before == 1,
{
    reveal_with_fuel(concat_strokes, 3);
    let j = s.journal();
    assert(j.subrange(0, 1) =~= seq![j[0]]);
    assert(seq![j[0]].drop_last() =~= Seq::<EventModel>::empty());
    assert(concat_strokes(seq![j[0]]) =~= seq![a]);
    assert(window(j, 1, 0, b) =~= seq![a, b]);
    assert(s.dictionary().spec_get(window(j, 1, 0, b)) == Some(e2));
    assert(s.spec_find(b) == s.spec_find_from(b, 1, 0));
}

/// A `Backspace` instruction alone retracts exactly the latest journal
/// event — restoring its recorded state and deleting exactly its text —
/// when the journal is non-empty; with an empty journal it asks for
/// exactly one whole-word deletion.
pub proof fn lemma_backspace(state: InputState, j: Seq<EventModel>, a: ActionModel)
    requires
        j.len() <= BACKLOG_DEPTH,
        a.delete_before == 0,
        a.entry == seq![PartModel::PloverCommand(PloverCommand::Backspace)],
        j.len() > 0 ==> j.last().text.len() > 0,
    ensures
        !run_action_model(state, j, a).quit,
        run_action_model(state, j, a).diff.text.len() == 0,
        j.len() > 0 ==> {
            let m = run_action_model(state, j, a);
            &&& m.backlog == j.drop_last()
            &&& m.state == j.last().state_before
            &&& m.diff.words == 0
            &&& m.diff.chars == j.last().text.len()
            &&& m.diff.bytes == bytes_len(j.last().text)
        },
        j.len() == 0 ==> {
            let m = run_action_model(state, j, a);
            &&& m.backlog == j
            &&& m.diff.words == 1
            &&& m.diff.chars == 0
            &&& m.diff.bytes == 0
        },
{
    reveal_with_fuel(run_parts_model, 3);
    reveal_with_fuel(total_chars, 2);
    reveal_with_fuel(total_bytes, 2);
    let st1 = state;
    assert(j.skip(j.len() as int) =~= Seq::<EventModel>::empty());
    assert(j.take(j.len() as int) =~= j);
    let m0 = ExecModel {
        state: InputState { glue: false, ..st1 },
        backlog: j,
        diff: DiffModel { words: 0, chars: 0, bytes: 0, text: Seq::empty() },
        quit: false,
    };
    assert(run_parts_model(m0, a.entry, 0, st1.glue) == run_parts_model(
        backspace_model(m0),
        a.entry,
        1,
        false,
    ));
    if j.len() > 0 {
        assert(backspace_model(m0).backlog.len() == j.len() - 1 < BACKLOG_DEPTH);
    }
}

/// Sentence-ending punctuation forces capitalization of what follows and
/// owes a separator; other punctuation clears any pending capitalization.
/// Either way exactly the mark's character is emitted.
pub proof fn lemma_punct_caps(st: InputState, d: DiffModel, jt: Seq<char>, p: SpecialPunct, g: bool)
    ensures
        ({
            let s = part_model(st, d, jt, PartModel::SpecialPunct(p), g);
            &&& s.state.caps == (if p.spec_is_sentence_end() {
                Some(true)
            } else {
                None::<bool>
            })
            &&& s.state.space
            &&& s.diff.text == d.text + seq![p.spec_char()]
            &&& s.diff.chars == d.chars
            &&& s.cmd is None
        }),
{
}

/// A fragment emitted under forced capitalization (with a separator owed)
/// is appended after one separator with exactly its first character folded
/// to upper case, and the rest untouched.
pub proof fn lemma_caps_applied(st: InputState, d: DiffModel, jt: Seq<char>, t: Seq<char>, g: bool)
    requires
        st.caps == Some(true),
        st.space,
        t.len() > 0,
    ensures
        ({
            let s = part_model(st, d, jt, PartModel::Verbatim(t), g);
            s.diff.text == d.text + seq![' '] + seq![upper_char(t[0])] + t.skip(1)
        }),
{
    let s = part_model(st, d, jt, PartModel::Verbatim(t), g);
    let d2 = diff_append(diff_append(d, seq![' ']), t);
    let fp = d.text.len() + 1;
    assert(d2.text[fp as int] == t[0]);
    assert(s.diff.text =~= d.text + seq![' '] + seq![upper_char(t[0])] + t.skip(1));
}

/// A fragment emitted with no capitalization pending (and a separator
/// owed) is appended after one separator entirely unchanged.
pub proof fn lemma_no_caps(st: InputState, d: DiffModel, jt: Seq<char>, t: Seq<char>, g: bool)
    requires
        st.caps is None,
        st.space,
    ensures
        part_model(st, d, jt, PartModel::Verbatim(t), g).diff.text == d.text + seq![' '] + t,
{
    assert(part_model(st, d, jt, PartModel::Verbatim(t), g).diff.text =~= d.text + seq![' '] + t);
}

/// The texts the journal records, concatenated oldest first.
pub open spec fn journal_text(j: Seq<EventModel>) -> Seq<char>
    decreases j.len(),
{
    if j.len() == 0 {
        Seq::empty()
    } else {
        journal_text(j.drop_last()) + j.last().text
    }
}

/// Applying a pending edit to the visible text: the deleted span comes off
/// the tail, the staged text goes on.
pub open spec fn apply_diff(screen: Seq<char>, d: DiffModel) -> Seq<char>
    recommends
        d.chars <= screen.len(),
        d.words == 0,
{
    screen.take(screen.len() - d.chars) + d.text
}

/// Splitting a stretch of events splits their concatenated texts.
proof fn lemma_journal_text_split(j: Seq<EventModel>, k: int)
    requires
        0 <= k <= j.len(),
    ensures
        journal_text(j) == journal_text(j.take(k)) + journal_text(j.skip(k)),
    decreases j.len() - k,
{
    if k == j.len() {
        assert(j.take(k) =~= j);
        assert(j.skip(k) =~= Seq::<EventModel>::empty());
        assert(journal_text(j) =~= journal_text(j.take(k)) + journal_text(j.skip(k)));
    } else {
        lemma_journal_text_split(j.drop_last(), k);
        assert(j.drop_last().take(k) =~= j.take(k));
        assert(j.skip(k).drop_last() =~= j.drop_last().skip(k));
        assert(j.skip(k).last() == j.last());
        assert(journal_text(j.take(k)) + (journal_text(j.drop_last().skip(k)) + j.last().text)
            =~= journal_text(j.take(k)) + journal_text(j.drop_last().skip(k)) + j.last().text);
    }
}

/// The retracted texts' character count is the length of their
/// concatenation.
proof fn lemma_total_chars_is_text_len(evs: Seq<EventModel>)
    ensures
        total_chars(evs) == journal_text(evs).len(),
    decreases evs.len(),
{
    if evs.len() > 0 {
        lemma_total_chars_is_text_len(evs.drop_last());
    }
}

/// Whether a run of instructions stays within what the replay property
/// can see: every backspace finds a journaled event and no staged text,
/// and no fragment fuses into an already-journaled text.
pub open spec fn plain_parts(m: ExecModel, parts: Seq<PartModel>, i: int, g: bool) -> bool
    decreases parts.len() - i,
{
    if i < 0 || i >= parts.len() {
        true
    } else {
        match parts[i] {
            PartModel::PloverCommand(PloverCommand::Backspace) => m.backlog.len() > 0
                && m.diff.text.len() == 0 && plain_parts(backspace_model(m), parts, i + 1, false),
            PartModel::PloverCommand(PloverCommand::Quit) => true,
            _ => {
                let ok = match parts[i] {
                    PartModel::Verbatim(t) => !(m.diff.text.len() == 0 && !m.state.space
                        && crate::orthography::spec_combined(back_text(m.backlog), t) is Some),
                    _ => true,
                };
                let st = part_model(m.state, m.diff, back_text(m.backlog), parts[i], g);
                ok && plain_parts(
                    ExecModel { state: st.state, diff: st.diff, ..m },
                    parts,
                    i + 1,
                    parts[i] is Glue,
                )
            },
        }
    }
}

/// Whether an action's entry runs within what the replay property can see.
pub open spec fn plain_action(state: InputState, j: Seq<EventModel>, a: ActionModel) -> bool
    recommends
        a.delete_before <= j.len(),
{
    plain_parts(action_m0(state, j, a), a.entry, 0, retract_state(state, j, a).glue)
}

/// Through a plain run, the journal stays a prefix of what it was and the
/// delete span accounts for exactly the journal text beyond it.
proof fn lemma_run_parts_replay(
    m: ExecModel,
    parts: Seq<PartModel>,
    i: int,
    g: bool,
    j_all: Seq<EventModel>,
)
    requires
        m.backlog.len() <= j_all.len(),
        m.backlog == j_all.take(m.backlog.len() as int),
        m.diff.words == 0,
        m.diff.chars + journal_text(m.backlog).len() == journal_text(j_all).len(),
        plain_parts(m, parts, i, g),
    ensures
        ({
            let r = run_parts_model(m, parts, i, g);
            &&& r.backlog.len() <= j_all.len()
            &&& r.backlog == j_all.take(r.backlog.len() as int)
            &&& r.diff.words == 0
            &&& r.diff.chars + journal_text(r.backlog).len() == journal_text(j_all).len()
        }),
    decreases parts.len() - i,
{
    if 0 <= i < parts.len() {
        match parts[i] {
            PartModel::PloverCommand(PloverCommand::Backspace) => {
                let b = backspace_model(m);
                assert(journal_text(m.backlog) == journal_text(m.backlog.drop_last())
                    + m.backlog.last().text);
                assert(m.backlog.drop_last() =~= j_all.take(m.backlog.len() - 1));
                lemma_run_parts_replay(b, parts, i + 1, false, j_all);
            },
            PartModel::PloverCommand(PloverCommand::Quit) => {},
            _ => {
                let st = part_model(m.state, m.diff, back_text(m.backlog), parts[i], g);
                let next = ExecModel { state: st.state, diff: st.diff, ..m };
                match parts[i] {
                    PartModel::Verbatim(t) => {
                        let d1 = if m.state.space {
                            diff_append(m.diff, seq![' '])
                        } else {
                            m.diff
                        };
                        let before = if d1.text.len() > 0 {
                            d1.text
                        } else {
                            back_text(m.backlog)
                        };
                        if !m.state.space && crate::orthography::spec_combined(
                            before,
                            t,
                        ) is Some {
                            assert(d1.text.len() > 0);
                            assert(before == d1.text);
                            assert(diff_delete(d1, before.len(), bytes_len(before)).chars
                                == d1.chars);
                        }
                        assert(st.diff.chars == m.diff.chars);
                        assert(st.diff.words == m.diff.words);
                    },
                    _ => {
                        assert(st.diff.chars == m.diff.chars);
                        assert(st.diff.words == m.diff.words);
                    },
                }
                lemma_run_parts_replay(next, parts, i + 1, parts[i] is Glue, j_all);
            },
        }
    }
}

/// Replay: the edit one action returns, applied to the visible text,
/// leaves exactly what the journal then accounts for — any evicted text
/// (which stays on the surface) followed by the journaled texts. It holds
/// of every plain action: one whose entry never backspaces past staged
/// text or an empty journal and never fuses into already-journaled text.
pub proof fn lemma_replay(
    state: InputState,
    j: Seq<EventModel>,
    a: ActionModel,
    base: Seq<char>,
    screen: Seq<char>,
)
    requires
        a.delete_before <= j.len(),
        screen == base + journal_text(j),
        plain_action(state, j, a),
    ensures
        ({
            let m = run_action_model(state, j, a);
            let m1 = run_parts_model(
                action_m0(state, j, a),
                a.entry,
                0,
                retract_state(state, j, a).glue,
            );
            let evicted: Seq<char> = if m1.backlog.len() == BACKLOG_DEPTH as nat {
                m1.backlog[0].text
            } else {
                Seq::empty()
            };
            &&& m.diff.words == 0
            &&& m.diff.chars <= journal_text(j).len()
            &&& (!m.quit ==> apply_diff(screen, m.diff) == base + evicted + journal_text(
                m.backlog,
            ))
        }),
{
    let m0 = action_m0(state, j, a);
    let st1 = retract_state(state, j, a);
    let fr = j.len() - a.delete_before;
    lemma_journal_text_split(j, fr);
    lemma_total_chars_is_text_len(j.skip(fr));
    assert(m0.backlog == j.take(fr));
    assert(m0.diff.chars + journal_text(m0.backlog).len() == journal_text(j).len());
    lemma_run_parts_replay(m0, a.entry, 0, st1.glue, j);
    let m1 = run_parts_model(m0, a.entry, 0, st1.glue);
    let m = run_action_model(state, j, a);
    assert(m.diff == m1.diff);
    // The journal the run left is a prefix of the original, so its text is
    // a prefix of the original text.
    lemma_journal_text_split(j, m1.backlog.len() as int);
    assert(journal_text(j).take(journal_text(m1.backlog).len() as int) =~= journal_text(
        m1.backlog,
    ));
    if !m.quit {
        assert(screen.take(screen.len() - m.diff.chars) =~= base + journal_text(m1.backlog));
        let evicted: Seq<char> = if m1.backlog.len() == BACKLOG_DEPTH as nat {
            m1.backlog[0].text
        } else {
            Seq::empty()
        };
        let j2 = if m1.backlog.len() == BACKLOG_DEPTH as nat {
            m1.backlog.drop_first()
        } else {
            m1.backlog
        };
        if m1.backlog.len() == BACKLOG_DEPTH as nat {
            lemma_journal_text_split(m1.backlog, 1);
            assert(m1.backlog.take(1) =~= seq![m1.backlog[0]]);
            assert(seq![m1.backlog[0]].drop_last() =~= Seq::<EventModel>::empty());
            reveal_with_fuel(journal_text, 3);
            assert(journal_text(seq![m1.backlog[0]]) =~= m1.backlog[0].text);
            assert(m1.backlog.skip(1) =~= m1.backlog.drop_first());
            assert(journal_text(m1.backlog) =~= evicted + journal_text(j2));
        }
        if m1.diff.text.len() > 0 {
            let pushed = EventModel {
                strokes: a.strokes,
                text: m1.diff.text,
                state_before: st1,
            };
            assert(m.backlog == j2.push(pushed));
            assert(j2.push(pushed).drop_last() =~= j2);
            assert(journal_text(j2.push(pushed)) == journal_text(j2) + m1.diff.text);
        } else {
            assert(m.backlog == j2);
        }
        assert(apply_diff(screen, m.diff) =~= base + evicted + journal_text(m.backlog));
    }
}

/// At capacity, journaling a new production evicts exactly the oldest
/// event: the rest keep their order and the production is appended.
pub proof fn lemma_fifo_eviction(state: InputState, j: Seq<EventModel>, a: ActionModel)
    requires
        a.delete_before <= j.len(),
    ensures
        ({
            let st1 = retract_state(state, j, a);
            let m1 = run_parts_model(action_m0(state, j, a), a.entry, 0, st1.glue);
            let m = run_action_model(state, j, a);
            (!m1.quit && m1.backlog.len() == BACKLOG_DEPTH && m1.diff.text.len() > 0)
                ==> m.backlog == m1.backlog.drop_first().push(
                EventModel { strokes: a.strokes, text: m1.diff.text, state_before: st1 },
            )
        }),
{
}

} // verus!
