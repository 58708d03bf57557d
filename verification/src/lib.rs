//! A small interpreter for a Lisp-family expression language.
//!
//! Text is read into a tree of tagged values, evaluated against a chain of
//! lexical scopes, and rendered back to text. Every function is verified
//! against a mathematical model of the values and of the scopes:
//!
//! - `types`: the values and their model;
//! - `reader`: text to tokens, tokens to a value;
//! - `printer`: a value to text;
//! - `env`: the scopes;
//! - `base_fn`: the host operations;
//! - `eval`: evaluation;
//! - `error`: the failures;
//! - `text`: characters, numerals, joining;
//! - `outside`: the calls that are taken on trust;
//! - `laws`: what holds of reading and printing together;
//! - `eval_laws`: what holds of every evaluation.

pub mod base_fn;
pub mod env;
pub mod error;
pub mod eval;
pub mod eval_laws;
pub mod laws;
mod outside;
pub mod printer;
pub mod reader;
pub mod round_trip;
pub mod text;
pub mod types;
