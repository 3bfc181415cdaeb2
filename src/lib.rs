//! A first-order Markov chain over word tokens: tokenizing texts, building
//! and merging chains, and walking a chain to generate words.

pub mod chain;
pub mod tokenize;
pub mod error;
pub mod generate;
pub mod laws;
pub mod corpus;
