//! Lexical analysis for a small dynamically-typed scripting language.
//!
//! The crate turns source text into an ordered sequence of classified tokens,
//! closed by an end-marker, together with the errors found on the way.
//!
//! - [`token_type`], [`token`] and [`error`] hold the data: token kinds,
//!   tokens with their literals, and diagnostics.
//! - [`helpers`] holds the character classifiers and the keyword table.
//! - [`text`] relates byte offsets into UTF-8 text to character indices.
//! - [`grammar`] is the mathematical model of the scan, over the sequence of
//!   characters of the source.
//! - [`scanner`] is the executable scanner; its contracts say that it
//!   computes what the model describes.
//! - [`laws`] proves the general properties of the model.

pub mod token_type;
pub mod token;
pub mod error;
pub mod helpers;
pub mod text;
pub mod grammar;
pub mod laws;
pub mod scanner;
