//! Text front-end of a Chinese text-to-speech system: numeral conversion,
//! normalization, tone sandhi, grapheme-to-phoneme conversion with
//! per-character phone counts, BERT token alignment and tensor preparation.
#![verifier::loop_isolation(false)]

pub mod text;
pub mod cn2an;
pub mod symbols;
pub mod normalizer;
pub mod english;
pub mod syllables;
pub mod segmenter;
pub mod tone_sandhi;
pub mod errors;
pub mod g2p;
pub mod bert;
pub mod model;
pub mod config;
