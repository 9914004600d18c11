//! The `bench` command's decisions: where each benchmarked SQL comes from,
//! which argument counts it accepts, and how its errors read.

use vstd::prelude::*;
use crate::text::{concat2, concat3, ends_with, nat_digits, push_str, string_of, u64_text};
use crate::cli::exec::SqlSource as SqlInput;

verus! {

/// Errors of the `bench` command.
#[derive(Debug)]
pub enum BenchError {
    /// Failed to load an extension.
    ExtensionLoad(String),
    /// Failed to read a SQL file.
    FileRead(String),
}

/// The message of a bench error.
pub open spec fn bench_error_text(e: BenchError) -> Seq<char> {
    match e {
        BenchError::ExtensionLoad(m) => "Failed to load extension: "@ + m@,
        BenchError::FileRead(m) => "Failed to read file: "@ + m@,
    }
}

impl BenchError {
    /// The message of the error.
    pub fn to_string(&self) -> (r: String)
        ensures
            r@ == bench_error_text(*self),
    {
        match self {
            BenchError::ExtensionLoad(m) => concat2("Failed to load extension: ", m.as_str()),
            BenchError::FileRead(m) => concat2("Failed to read file: ", m.as_str()),
        }
    }
}

/// Whether the text ends in `.sql`.
pub open spec fn ends_in_sql(s: Seq<char>) -> bool {
    ".sql"@.len() <= s.len() && s.subrange(s.len() - ".sql"@.len(), s.len() as int) == ".sql"@
}

/// Where a benchmarked SQL argument comes from: an argument ending in
/// `.sql` is always a file path, anything else is the SQL itself.
pub fn resolve_sql(sql: &str) -> (r: SqlInput)
    ensures
        match r {
            SqlInput::File(p) => ends_in_sql(sql@) && p@ == sql@,
            SqlInput::Text(t) => !ends_in_sql(sql@) && t@ == sql@,
        },
{
    if ends_with(sql, ".sql") {
        SqlInput::File(string_of(sql))
    } else {
        SqlInput::Text(string_of(sql))
    }
}

/// The SQL of a benchmarked file, from the outcome of reading it: the
/// contents as they are, or a `FileRead` error naming the path and the
/// reason.
pub fn read_sql_outcome(path: &str, read: Result<String, String>) -> (r: Result<String, BenchError>)
    ensures
        match read {
            Ok(c) => r matches Ok(s) && s@ == c@,
            Err(m) => r matches Err(BenchError::FileRead(t)) && t@ == path@ + ": "@ + m@,
        },
{
    match read {
        Ok(c) => Ok(c),
        Err(m) => Err(BenchError::FileRead(concat3(path, ": ", m.as_str()))),
    }
}

/// The message for a number of databases that fits neither one database
/// nor one per query.
pub open spec fn database_count_msg(databases: nat, queries: nat) -> Seq<char> {
    "--database must be given once or once per SQL argument (got "@ + nat_digits(databases)
        + " databases for "@ + nat_digits(queries) + " queries)"@
}

/// Checks the number of `--database` values against the number of SQL
/// arguments: one database serves every query, else there must be one per
/// query.
pub fn check_database_count(databases: Option<u64>, queries: u64) -> (r: Result<(), String>)
    ensures
        match databases {
            Some(n) => if n != 1 && n != queries {
                r matches Err(m) && m@ == database_count_msg(n as nat, queries as nat)
            } else {
                r is Ok
            },
            None => r is Ok,
        },
{
    match databases {
        Some(n) => {
            if n != 1 && n != queries {
                let mut m = string_of("--database must be given once or once per SQL argument (got ");
                let a = u64_text(n);
                push_str(&mut m, a.as_str());
                push_str(&mut m, " databases for ");
                let b = u64_text(queries);
                push_str(&mut m, b.as_str());
                push_str(&mut m, " queries)");
                Err(m)
            } else {
                Ok(())
            }
        },
        None => Ok(()),
    }
}

/// Checks that the flattened `--attach PATH NAME` values come in pairs.
pub fn check_attach_pairs(count: usize) -> (r: Result<(), String>)
    ensures
        count % 2 != 0 ==> (r matches Err(m) && m@ == "--attach requires PATH NAME pairs"@),
        count % 2 == 0 ==> r is Ok,
{
    if count % 2 != 0 {
        Err(string_of("--attach requires PATH NAME pairs"))
    } else {
        Ok(())
    }
}

/// What preparing the start of a SQL text gave.
#[derive(Debug, Clone, Copy, PartialEq, Eq, Structural)]
pub enum PrepareOutcome {
    /// A statement was prepared.
    Statement,
    /// No statement; the byte offset where the unread rest starts, if any.
    Empty(Option<usize>),
    /// Preparing failed.
    Failed,
}

/// The next step of the search for a statement in a SQL text.
#[derive(Debug, Clone, Copy, PartialEq, Eq, Structural)]
pub enum ScanStep {
    /// The text holds a statement.
    Found,
    /// Go on with the rest, from this byte offset.
    Advance(usize),
    /// The text holds no statement.
    Exhausted,
}

/// Whether a SQL text holds a statement, one prepare at a time: a prepared
/// statement, or a failure (the tail may name objects that do not exist
/// yet), means it does; an empty prepare goes on from where it stopped
/// when that is past the start, and otherwise ends the search.
pub fn has_statement_step(outcome: PrepareOutcome) -> (r: ScanStep)
    ensures
        r == match outcome {
            PrepareOutcome::Statement => ScanStep::Found,
            PrepareOutcome::Failed => ScanStep::Found,
            PrepareOutcome::Empty(Some(offset)) => if offset > 0 {
                ScanStep::Advance(offset)
            } else {
                ScanStep::Exhausted
            },
            PrepareOutcome::Empty(None) => ScanStep::Exhausted,
        },
{
    match outcome {
        PrepareOutcome::Statement => ScanStep::Found,
        PrepareOutcome::Empty(Some(offset)) => {
            if offset > 0 {
                ScanStep::Advance(offset)
            } else {
                ScanStep::Exhausted
            }
        },
        PrepareOutcome::Empty(None) => ScanStep::Exhausted,
        PrepareOutcome::Failed => ScanStep::Found,
    }
}

} // verus!
