use steno_core::dict::{Entry, EntryPart, MapDict, PloverCommand, SpecialPunct, Strokes};
use steno_core::keys::{Key, Keys};
use steno_core::steno::{SpecialAction, Steno};

fn chord(keys: &[Key]) -> Keys {
    let mut ks = Keys::new();
    for &k in keys {
        ks.insert(k);
    }
    ks
}

fn text(s: &str) -> Vec<char> {
    s.chars().collect()
}

fn string_of(v: &[char]) -> String {
    v.iter().collect()
}

fn verbatim(s: &str) -> Entry {
    Entry(vec![EntryPart::Verbatim(text(s))])
}

#[test]
fn fallback_on_unmatched_chord() {
    let mut engine = Steno::new(MapDict::new());
    let out = engine.handle_keys(chord(&[Key::K, Key::W])).unwrap();
    assert_eq!(out.delete_words, 0);
    assert_eq!(out.delete.chars, 0);
    assert_eq!(string_of(&out.append), "KW");
}

#[test]
fn fallback_uses_steno_notation_hyphen() {
    let mut engine = Steno::new(MapDict::new());
    let out = engine.handle_keys(chord(&[Key::B, Key::G])).unwrap();
    // Right-hand keys alone get a leading hyphen; the first character is
    // folded by the initial force-capitalization, which leaves '-' alone.
    assert_eq!(string_of(&out.append), "-BG");
}

#[test]
fn capitalizes_first_word() {
    let mut dict = MapDict::new();
    dict.define(Strokes(vec![chord(&[Key::H])]), verbatim("hello"));
    let mut engine = Steno::new(dict);
    let out = engine.handle_keys(chord(&[Key::H])).unwrap();
    assert_eq!(string_of(&out.append), "Hello");
}

#[test]
fn separates_words_with_spaces() {
    let mut dict = MapDict::new();
    dict.define(Strokes(vec![chord(&[Key::H])]), verbatim("hello"));
    dict.define(Strokes(vec![chord(&[Key::W])]), verbatim("world"));
    let mut engine = Steno::new(dict);
    let a = engine.handle_keys(chord(&[Key::H])).unwrap();
    let b = engine.handle_keys(chord(&[Key::W])).unwrap();
    assert_eq!(string_of(&a.append), "Hello");
    assert_eq!(string_of(&b.append), " world");
    assert_eq!(b.delete.chars, 0);
}

#[test]
fn longest_match_retracts_previous_production() {
    let a = chord(&[Key::S]);
    let b = chord(&[Key::T]);
    let mut dict = MapDict::new();
    dict.define(Strokes(vec![a]), verbatim("sun"));
    dict.define(Strokes(vec![a, b]), verbatim("sunset"));
    let mut engine = Steno::new(dict);
    let first = engine.handle_keys(a).unwrap();
    assert_eq!(string_of(&first.append), "Sun");
    let second = engine.handle_keys(b).unwrap();
    // The two-chord outline wins: the production of the single chord is
    // undone (3 characters deleted) and replaced.
    assert_eq!(second.delete.chars, 3);
    assert_eq!(string_of(&second.append), "Sunset");
    assert_eq!(engine.journal_len(), 1);
}

#[test]
fn backspace_retracts_latest_event() {
    let h = chord(&[Key::H]);
    let star = chord(&[Key::Star]);
    let mut dict = MapDict::new();
    dict.define(Strokes(vec![h]), verbatim("hello"));
    dict.define(
        Strokes(vec![star]),
        Entry(vec![EntryPart::PloverCommand(PloverCommand::Backspace)]),
    );
    let mut engine = Steno::new(dict);
    let first = engine.handle_keys(h).unwrap();
    assert_eq!(string_of(&first.append), "Hello");
    let undo = engine.handle_keys(star).unwrap();
    assert_eq!(undo.delete_words, 0);
    assert_eq!(undo.delete.chars, 5);
    assert_eq!(undo.delete.bytes, 5);
    assert_eq!(string_of(&undo.append), "");
    assert_eq!(engine.journal_len(), 0);
    // The state was restored too: the next word is capitalized again.
    let again = engine.handle_keys(h).unwrap();
    assert_eq!(string_of(&again.append), "Hello");
}

#[test]
fn backspace_on_empty_journal_deletes_a_word() {
    let star = chord(&[Key::Star]);
    let mut dict = MapDict::new();
    dict.define(
        Strokes(vec![star]),
        Entry(vec![EntryPart::PloverCommand(PloverCommand::Backspace)]),
    );
    let mut engine = Steno::new(dict);
    let out = engine.handle_keys(star).unwrap();
    assert_eq!(out.delete_words, 1);
    assert_eq!(out.delete.chars, 0);
    assert_eq!(string_of(&out.append), "");
}

#[test]
fn sentence_end_forces_capital_comma_does_not() {
    let h = chord(&[Key::H]);
    let w = chord(&[Key::W]);
    let dot = chord(&[Key::P]);
    let comma = chord(&[Key::B]);
    let mut dict = MapDict::new();
    dict.define(Strokes(vec![h]), verbatim("hello"));
    dict.define(Strokes(vec![w]), verbatim("world"));
    dict.define(
        Strokes(vec![dot]),
        Entry(vec![EntryPart::SpecialPunct(SpecialPunct::Period)]),
    );
    dict.define(
        Strokes(vec![comma]),
        Entry(vec![EntryPart::SpecialPunct(SpecialPunct::Comma)]),
    );
    let mut engine = Steno::new(dict);
    assert_eq!(string_of(&engine.handle_keys(h).unwrap().append), "Hello");
    assert_eq!(string_of(&engine.handle_keys(dot).unwrap().append), ".");
    assert_eq!(string_of(&engine.handle_keys(w).unwrap().append), " World");
    assert_eq!(string_of(&engine.handle_keys(comma).unwrap().append), ",");
    assert_eq!(string_of(&engine.handle_keys(h).unwrap().append), " hello");
}

#[test]
fn journal_is_capped_at_capacity() {
    let mut engine = Steno::new(MapDict::new());
    for _ in 0..1001 {
        let out = engine.handle_keys(chord(&[Key::K, Key::W])).unwrap();
        assert!(!out.append.is_empty());
    }
    assert_eq!(engine.journal_len(), 1000);
}

#[test]
fn numeral_plain_digits() {
    let out = steno_core::steno::make_numbers(chord(&[Key::NumberBar, Key::S, Key::T])).unwrap();
    assert_eq!(string_of(&out), "12");
}

#[test]
fn numeral_double_modifier() {
    let out =
        steno_core::steno::make_numbers(chord(&[Key::NumberBar, Key::S, Key::T, Key::D])).unwrap();
    assert_eq!(string_of(&out), "1212");
}

#[test]
fn numeral_time_modifier() {
    let out =
        steno_core::steno::make_numbers(chord(&[Key::NumberBar, Key::S, Key::T, Key::K])).unwrap();
    assert_eq!(string_of(&out), "12:00");
}

#[test]
fn numeral_reversal_dollar_and_cents() {
    let rev = steno_core::steno::make_numbers(chord(&[
        Key::NumberBar,
        Key::S,
        Key::T,
        Key::E,
        Key::U,
    ]))
    .unwrap();
    assert_eq!(string_of(&rev), "21");
    let dollar = steno_core::steno::make_numbers(chord(&[
        Key::NumberBar,
        Key::S,
        Key::T,
        Key::D,
        Key::Z,
    ]))
    .unwrap();
    assert_eq!(string_of(&dollar), "$1200");
    let cents =
        steno_core::steno::make_numbers(chord(&[Key::NumberBar, Key::S, Key::T, Key::Z])).unwrap();
    assert_eq!(string_of(&cents), "1200");
}

#[test]
fn numeral_leftover_key_is_no_numeral() {
    assert!(steno_core::steno::make_numbers(chord(&[Key::NumberBar, Key::S, Key::Star])).is_none());
}

#[test]
fn number_chords_glue_without_separator() {
    let mut engine = Steno::new(MapDict::new());
    let first = engine
        .handle_keys(chord(&[Key::NumberBar, Key::S, Key::T]))
        .unwrap();
    assert_eq!(string_of(&first.append), "12");
    let second = engine
        .handle_keys(chord(&[Key::NumberBar, Key::P, Key::H]))
        .unwrap();
    // Glued fragments fuse with no inserted separator and no case change.
    assert_eq!(string_of(&second.append), "34");
    assert_eq!(second.delete.chars, 0);
}

#[test]
fn orthographic_fusion_replaces_preceding_text() {
    let m = chord(&[Key::P, Key::H]);
    let ing = chord(&[Key::G]);
    let mut dict = MapDict::new();
    dict.define(Strokes(vec![m]), verbatim("make"));
    dict.define(
        Strokes(vec![ing]),
        Entry(vec![EntryPart::SetSpace(false), EntryPart::Verbatim(text("ing"))]),
    );
    let mut engine = Steno::new(dict);
    let first = engine.handle_keys(m).unwrap();
    assert_eq!(string_of(&first.append), "Make");
    let second = engine.handle_keys(ing).unwrap();
    // The silent-e rule fires: the journaled "Make" is replaced by the
    // fused spelling.
    assert_eq!(second.delete.chars, 4);
    assert_eq!(string_of(&second.append), "Making");
}

#[test]
fn carry_suppressor_keeps_capitalization_pending() {
    let q = chord(&[Key::K]);
    let h = chord(&[Key::H]);
    let mut dict = MapDict::new();
    dict.define(
        Strokes(vec![q]),
        Entry(vec![EntryPart::CarryToNext, EntryPart::Verbatim(text("\""))]),
    );
    dict.define(Strokes(vec![h]), verbatim("hello"));
    let mut engine = Steno::new(dict);
    let first = engine.handle_keys(q).unwrap();
    assert_eq!(string_of(&first.append), "\"");
    // The suppressor consumed the reset: capitalization still pending.
    let second = engine.handle_keys(h).unwrap();
    assert_eq!(string_of(&second.append), "Hello");
}

#[test]
fn quit_command_signals_termination() {
    let z = chord(&[Key::Z]);
    let mut dict = MapDict::new();
    dict.define(
        Strokes(vec![z]),
        Entry(vec![EntryPart::PloverCommand(PloverCommand::Quit)]),
    );
    let mut engine = Steno::new(dict);
    assert!(matches!(engine.handle_keys(z), Err(SpecialAction::Quit)));
}

#[test]
fn backspace_cancels_staged_text_first() {
    let h = chord(&[Key::H]);
    let x = chord(&[Key::P]);
    let mut dict = MapDict::new();
    dict.define(Strokes(vec![h]), verbatim("hello"));
    dict.define(
        Strokes(vec![x]),
        Entry(vec![
            EntryPart::Verbatim(text("xy")),
            EntryPart::PloverCommand(PloverCommand::Backspace),
        ]),
    );
    let mut engine = Steno::new(dict);
    engine.handle_keys(h).unwrap();
    let out = engine.handle_keys(x).unwrap();
    // " xy" was staged (3 chars); deleting the journaled "Hello" (5 chars)
    // consumes the staged text and deletes the remaining 2 for real.
    assert_eq!(out.delete.chars, 2);
    assert_eq!(string_of(&out.append), "");
    assert_eq!(engine.journal_len(), 0);
}

#[test]
fn set_caps_lowers_next_fragment() {
    let h = chord(&[Key::H]);
    let l = chord(&[Key::L]);
    let mut dict = MapDict::new();
    dict.define(Strokes(vec![h]), verbatim("HTML"));
    dict.define(
        Strokes(vec![l]),
        Entry(vec![EntryPart::SetCaps(false), EntryPart::Verbatim(text("HTML"))]),
    );
    let mut engine = Steno::new(dict);
    assert_eq!(string_of(&engine.handle_keys(h).unwrap().append), "HTML");
    assert_eq!(string_of(&engine.handle_keys(l).unwrap().append), " hTML");
}

#[test]
fn outputs_replay_to_journal_text() {
    // Applying every returned edit to a screen reproduces the concatenation
    // of what the journal records.
    let mut dict = MapDict::new();
    dict.define(Strokes(vec![chord(&[Key::H])]), verbatim("hello"));
    dict.define(Strokes(vec![chord(&[Key::W])]), verbatim("world"));
    dict.define(
        Strokes(vec![chord(&[Key::Star])]),
        Entry(vec![EntryPart::PloverCommand(PloverCommand::Backspace)]),
    );
    let mut engine = Steno::new(dict);
    let mut screen: Vec<char> = Vec::new();
    for keys in [
        chord(&[Key::H]),
        chord(&[Key::W]),
        chord(&[Key::Star]),
        chord(&[Key::W]),
    ] {
        let out = engine.handle_keys(keys).unwrap();
        assert_eq!(out.delete_words, 0);
        let keep = screen.len() - out.delete.chars as usize;
        screen.truncate(keep);
        screen.extend_from_slice(&out.append);
    }
    assert_eq!(string_of(&screen), "Hello world");
}

#[test]
fn delete_span_counts_bytes_of_multibyte_text() {
    let h = chord(&[Key::H]);
    let star = chord(&[Key::Star]);
    let mut dict = MapDict::new();
    dict.define(Strokes(vec![h]), verbatim("héllo"));
    dict.define(
        Strokes(vec![star]),
        Entry(vec![EntryPart::PloverCommand(PloverCommand::Backspace)]),
    );
    let mut engine = Steno::new(dict);
    assert_eq!(string_of(&engine.handle_keys(h).unwrap().append), "Héllo");
    let undo = engine.handle_keys(star).unwrap();
    assert_eq!(undo.delete.chars, 5);
    // 'é' takes two bytes in UTF-8.
    assert_eq!(undo.delete.bytes, 6);
}
