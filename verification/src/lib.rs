//! Core of a chorded (stenographic) input engine: it turns a stream of key
//! chords into text edits, driven by a dictionary that maps outlines (one or
//! more chords) to sequences of formatting instructions.

pub mod chars_or_bytes;
pub mod dict;
pub mod keys;
pub mod orthography;
pub mod steno;
