//! Classification and resolution of the tokens of a small query language.
//!
//! A token is an integer literal, a string literal, an array literal, an
//! operator or the name of a column. [`classify`] tells these apart,
//! [`split`] takes an array literal apart into its element tokens, and
//! [`resolve`] turns a token into an [`identifier::Identifier`]. The
//! operators are those of a [`vocabulary::Vocabulary`]. [`laws`] holds what
//! is proved of all tokens.

pub mod classify;
pub mod decimal;
pub mod identifier;
pub mod laws;
pub mod listing;
pub mod resolve;
pub mod split;
mod text;
pub mod vocabulary;
