//! A data-driven recognizer for context-free grammars.
//!
//! A grammar is a table of named rule sets. Each rule set is an ordered
//! list of alternatives, and each alternative is a sequence of steps: a step
//! either consumes one token of a given kind or descends into another rule
//! set of the same table. The recognizer walks this graph over a token
//! stream, with backtracking, and answers whether the stream is accepted.
//!
//! A grammar description is checked by [`grammar::Grammar::validate`] and
//! built into a store by [`grammar::Grammar::to_store`], a text is cut into
//! tokens by [`lexer::tokenize`], and
//! [`parser::Parser::parse`] gives the verdict. What the verdict is, for
//! every grammar and every stream, is stated in [`language`]; what follows
//! from that is proved in [`bound`] and [`laws`].

pub mod bound;
pub mod cursor;
pub mod grammar;
pub mod language;
pub mod laws;
pub mod lexer;
pub mod parser;
pub mod rules;
pub mod store;
pub mod text;
