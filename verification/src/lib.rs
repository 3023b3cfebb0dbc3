//! A deterministic multi-tape Turing machine: tapes, transition rules, the
//! interpreter that steps them, and an enumerator of input words.

pub mod alphabet;
pub mod cell;
pub mod error;
pub mod language;
pub mod machine;
pub mod presets;
pub mod program;
pub mod rules;
pub mod survey;
pub mod table;
pub mod tape;
pub mod text;
pub mod trace;
pub mod words;
