//! Errors of the front-end and of request preparation.
use vstd::prelude::*;

verus! {

/// What went wrong, with a diagnostic message where one helps.
#[derive(Debug, PartialEq, Eq)]
pub enum TtsError {
    /// A pinyin syllable, phone, speaker or style that no table knows.
    Mapping(String),
    /// Lengths that disagree (word2ph against text or tokens).
    Shape(String),
    /// A tokenization without tokens.
    Tokenization(String),
    /// A caller-supplied parameter out of range.
    Validation(String),
}

} // verus!
