//! The semantic analyzer: schema extraction, expression checks, SELECT
//! and program analysis, symbol resolution, and linting.

pub mod schema;
pub mod analyze;
pub mod select;
pub mod symbols;
pub mod suppressions;
pub mod rules;
pub mod lint;
pub mod walk;
