//! Verified core of the solite SQL tooling: the SQL syntax tree, the
//! semantic analyzer and lint rules, symbol resolution for editors, and the
//! pure helpers of the command-line front end.

pub mod text;
pub mod strmap;
pub mod ast;
pub mod analyzer;
pub mod cli;
