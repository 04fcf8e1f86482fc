#![verifier::loop_isolation(false)]
//! A small spreadsheet-style formula engine.
//!
//! Text cells of a table that begin with `=` are formulas: they may hold
//! integer and quoted-text literals, arithmetic chains folded strictly left
//! to right, parenthesised groups, calls of the built-in functions `incFrom`
//! and `split`, and references to other cells of the table.  The engine
//! tokenizes a formula, reduces it on a stack, resolves references against
//! the table, and writes the resulting text back into the cell.

pub mod engine;
pub mod literal;
pub mod strutil;
pub mod table;
