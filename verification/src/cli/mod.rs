//! Pure helpers of the command-line front end.

pub mod codegen;
pub mod docs;
pub mod exec;
pub mod html;
pub mod paths;
pub mod query;
pub mod table;
pub mod colors;
pub mod bench;
pub mod args;
pub mod lint;
pub mod inline;
pub mod describe;
pub mod block;
pub mod jupyter;
