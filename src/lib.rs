//! Normalization of noisy user text: entity substitution, Unicode filtering,
//! repeated-letter reduction and dictionary-driven word correction.
pub mod text;
pub mod bigram;
pub mod unicode;
pub mod patterns;
pub mod spelling;
pub mod lexicon;
pub mod corrector;
pub mod number;
pub mod pipeline;
