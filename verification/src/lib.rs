//! Dictionary-driven segmentation of Japanese text.
//!
//! A text is cut into tokens by building a lattice of candidate spans (terms
//! found in a dictionary, and runs of characters of one kind where no term is
//! found) and taking the path of greatest score through it. The path ends
//! before the last code point of the text, which closes the text and belongs
//! to no token.

pub mod builder;
pub mod character;
pub mod conjugation;
pub mod dictionary;
pub mod guarantees;
pub mod lattice;
pub mod tokenizer;
pub mod word;
