//! A small JSON-like engine: a tree of values, a decoder that builds one
//! from text in a single pass, an encoder that lays one out as indented
//! text, and the conversions between the tree and a model of the Python
//! objects that a host hands in and takes back.
//!
//! The engine is deliberately not a JSON parser: what it accepts and what
//! it prints are its own, and are stated exactly in the modules `decoder`
//! and `encoder`. What holds of every text and of every value is proved in
//! the module `laws`.
//!
//! No function of this library evaluates a number: a number is carried as
//! its decimal text, which the module `number` checks against a grammar.

pub mod decoder;
pub mod encoder;
pub mod error;
pub mod host;
pub mod laws;
pub mod number;
pub mod text;
pub mod value;
