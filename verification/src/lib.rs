//! A scanner and a recursive-descent parser for a small lambda and
//! expression language. The parser records every production it uses in a
//! parse tree, kept as a directed graph.

pub mod token;
pub mod lexer;
pub mod grammar;
pub mod tree;
pub mod derivation;
pub mod graph;
pub mod parser;
