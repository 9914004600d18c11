//! The `query` command's decisions: what its positional arguments mean,
//! where the SQL comes from, and how its errors read.

use vstd::prelude::*;
use crate::text::{str_eq, string_of, concat2, concat3, trim_ws};
use crate::cli::exec::SqlSource as SqlInput;
use crate::cli::paths::{is_sql_file, is_database_path, is_sql_path, is_db_path, sql_file_text};

verus! {

/// Errors of the `query` command. Paths and I/O errors are held as text.
#[derive(Debug)]
pub enum QueryError {
    /// Database path does not exist.
    DatabaseNotFound(String),
    /// Failed to convert a path to text.
    InvalidPath(String),
    /// Failed to set a parameter.
    ParameterSet(String),
    /// Statement preparation returned no statement.
    EmptyPrepare,
    /// Replacement scan failed.
    ReplacementScanFailed(String),
    /// Statement execution failed.
    ExecutionFailed(String),
    /// SQL syntax or preparation error (already reported).
    SqlError,
    /// More than one SQL statement was provided.
    TrailingSql,
    /// Failed to read a SQL file: the path and the reason.
    FileReadError(String, String),
    /// No SQL provided or stdin could not be read.
    Stdin(String),
}

/// The message of a query error.
pub open spec fn query_error_text(e: QueryError) -> Seq<char> {
    match e {
        QueryError::DatabaseNotFound(p) => "Database not found: "@ + p@,
        QueryError::InvalidPath(p) => "Invalid path (not valid UTF-8): "@ + p@,
        QueryError::ParameterSet(m) => "Failed to set parameter: "@ + m@,
        QueryError::EmptyPrepare => "Statement preparation returned no statement"@,
        QueryError::ReplacementScanFailed(m) => "Replacement scan failed: "@ + m@,
        QueryError::ExecutionFailed(m) => "Execution failed: "@ + m@,
        QueryError::SqlError => "SQL error"@,
        QueryError::TrailingSql => "Only a single SQL statement is allowed in `solite query`. Use `solite run` for multi-statement scripts."@,
        QueryError::FileReadError(p, m) => "Failed to read SQL file '"@ + p@ + "': "@ + m@,
        QueryError::Stdin(m) => m@,
    }
}

impl QueryError {
    /// The message of the error.
    pub fn to_string(&self) -> (r: String)
        ensures
            r@ == query_error_text(*self),
    {
        match self {
            QueryError::DatabaseNotFound(p) => concat2("Database not found: ", p.as_str()),
            QueryError::InvalidPath(p) => concat2("Invalid path (not valid UTF-8): ", p.as_str()),
            QueryError::ParameterSet(m) => concat2("Failed to set parameter: ", m.as_str()),
            QueryError::EmptyPrepare => string_of("Statement preparation returned no statement"),
            QueryError::ReplacementScanFailed(m) => concat2("Replacement scan failed: ", m.as_str()),
            QueryError::ExecutionFailed(m) => concat2("Execution failed: ", m.as_str()),
            QueryError::SqlError => string_of("SQL error"),
            QueryError::TrailingSql => string_of(
                "Only a single SQL statement is allowed in `solite query`. Use `solite run` for multi-statement scripts.",
            ),
            QueryError::FileReadError(p, m) => {
                let mut s = concat3("Failed to read SQL file '", p.as_str(), "': ");
                crate::text::push_str(&mut s, m.as_str());
                s
            },
            QueryError::Stdin(m) => m.clone(),
        }
    }
}

/// Where the `query` command's SQL comes from.
#[derive(Debug, PartialEq, Eq)]
pub enum SqlSource {
    /// The SQL given as an argument (or the path of a `.sql` file).
    Inline(String),
    /// The SQL is read from piped stdin.
    Stdin,
}

/// What the caller found out about a positional argument.
#[derive(Debug, Clone, Copy, PartialEq, Eq, Structural)]
pub struct QueryArgFacts {
    /// The path exists on disk.
    pub exists: bool,
    /// The argument is a remote database URL.
    pub remote: bool,
}

/// How a refused argument list is reported.
pub enum ArgsFailure {
    /// `QueryError::DatabaseNotFound` with this path.
    NotFound(Seq<char>),
    /// `QueryError::ExecutionFailed` with this message.
    Failed(Seq<char>),
    /// `QueryError::Stdin` with this message.
    Stdin(Seq<char>),
}

/// The failure an error stands for, if it is one that argument parsing
/// gives.
pub open spec fn args_failure_of(e: QueryError) -> Option<ArgsFailure> {
    match e {
        QueryError::DatabaseNotFound(p) => Some(ArgsFailure::NotFound(p@)),
        QueryError::ExecutionFailed(m) => Some(ArgsFailure::Failed(m@)),
        QueryError::Stdin(m) => Some(ArgsFailure::Stdin(m@)),
        _ => None,
    }
}

/// A plan of the `query` command: the database, and the inline SQL
/// (`None`: read it from stdin).
pub type QueryPlan = (Option<Seq<char>>, Option<Seq<char>>);

/// The model of a parsed argument list.
pub open spec fn query_plan_model(p: (Option<String>, SqlSource)) -> QueryPlan {
    (
        match p.0 {
            Some(d) => Some(d@),
            None => None,
        },
        match p.1 {
            SqlSource::Inline(s) => Some(s@),
            SqlSource::Stdin => None,
        },
    )
}

/// A database for SQL read from stdin must be `:memory:`, remote, or
/// exist: `query` never creates a database.
pub open spec fn stdin_database(arg: Seq<char>, f: QueryArgFacts) -> Result<QueryPlan, ArgsFailure> {
    if arg == ":memory:"@ || f.remote || f.exists {
        Ok((Some(arg), None))
    } else {
        Err(ArgsFailure::NotFound(arg))
    }
}

/// What the positional arguments of `query` mean. With no statement, the
/// SQL comes from stdin. A lone `-` reads stdin; a lone database-looking
/// argument with piped stdin is the database; a lone remote URL is a usage
/// error; else a lone argument is the SQL. With two, `-` marks stdin and
/// the other is the database; else a remote URL, then a `.sql` file, then
/// `:memory:`, then an existing path decides which is the database; when
/// neither exists, the database-looking one is reported missing.
pub open spec fn query_plan(
    statement: Option<Seq<char>>,
    database: Option<Seq<char>>,
    f0: QueryArgFacts,
    f1: QueryArgFacts,
    piped: bool,
) -> Result<QueryPlan, ArgsFailure> {
    match statement {
        None => Ok((database, None)),
        Some(a0) => match database {
            None => {
                if a0 == "-"@ {
                    Ok((None, None))
                } else if piped && (a0 == ":memory:"@ || f0.remote || is_db_path(a0) || (f0.exists
                    && !is_sql_path(a0))) {
                    stdin_database(a0, f0)
                } else if f0.remote {
                    Err(ArgsFailure::Failed("Usage: solite query <sql> <database>"@))
                } else {
                    Ok((None, Some(a0)))
                }
            },
            Some(a1) => {
                if a0 == "-"@ && a1 == "-"@ {
                    Err(ArgsFailure::Stdin("only one `-` stdin placeholder is allowed"@))
                } else if a0 == "-"@ {
                    stdin_database(a1, f1)
                } else if a1 == "-"@ {
                    stdin_database(a0, f0)
                } else if f1.remote {
                    Ok((Some(a1), Some(a0)))
                } else if f0.remote {
                    Ok((Some(a0), Some(a1)))
                } else if is_sql_path(a1) {
                    Ok((Some(a0), Some(a1)))
                } else if is_sql_path(a0) {
                    Ok((Some(a1), Some(a0)))
                } else if a1 == ":memory:"@ {
                    Ok((Some(a1), Some(a0)))
                } else if a0 == ":memory:"@ {
                    Ok((Some(a0), Some(a1)))
                } else if f1.exists {
                    Ok((Some(a1), Some(a0)))
                } else if !f0.exists {
                    Err(ArgsFailure::NotFound(if is_db_path(a0) && !is_db_path(a1) { a0 } else { a1 }))
                } else {
                    Ok((Some(a0), Some(a1)))
                }
            },
        },
    }
}

/// `query` never creates a database: when the SQL comes from stdin and a
/// statement argument was given, the database it opens is `:memory:`, a
/// remote URL, or a path that exists.
pub proof fn law_query_opens_no_new_database(
    statement: Seq<char>,
    database: Option<Seq<char>>,
    f0: QueryArgFacts,
    f1: QueryArgFacts,
    piped: bool,
)
    ensures
        match query_plan(Some(statement), database, f0, f1, piped) {
            Ok((Some(db), None)) => db == ":memory:"@ || (db == statement && (f0.remote || f0.exists)) || (
            database == Some(db) && (f1.remote || f1.exists)),
            _ => true,
        },
{
}

fn stdin_database_of(arg: &String, f: QueryArgFacts) -> (r: Result<(Option<String>, SqlSource), QueryError>)
    ensures
        match stdin_database(arg@, f) {
            Ok(p) => r matches Ok(v) && query_plan_model(v) == p,
            Err(m) => r matches Err(e) && args_failure_of(e) == Some(m),
        },
{
    if str_eq(arg.as_str(), ":memory:") || f.remote || f.exists {
        Ok((Some(arg.clone()), SqlSource::Stdin))
    } else {
        Err(QueryError::DatabaseNotFound(arg.clone()))
    }
}

/// Decides what the positional arguments of `query` mean, given what the
/// caller found out about each (`f0` for the statement, `f1` for the
/// database) and whether stdin is piped.
pub fn parse_arguments(
    statement: &Option<String>,
    database: &Option<String>,
    f0: QueryArgFacts,
    f1: QueryArgFacts,
    stdin_piped: bool,
) -> (r: Result<(Option<String>, SqlSource), QueryError>)
    ensures
        match query_plan(
            match statement { Some(s) => Some(s@), None => None },
            match database { Some(s) => Some(s@), None => None },
            f0,
            f1,
            stdin_piped,
        ) {
            Ok(p) => r matches Ok(v) && query_plan_model(v) == p,
            Err(m) => r matches Err(e) && args_failure_of(e) == Some(m),
        },
{
    match statement {
        None => Ok((database.clone(), SqlSource::Stdin)),
        Some(arg0) => match database {
            None => {
                if str_eq(arg0.as_str(), "-") {
                    return Ok((None, SqlSource::Stdin));
                }
                if stdin_piped && (str_eq(arg0.as_str(), ":memory:") || f0.remote || is_database_path(
                    arg0.as_str(),
                ) || (f0.exists && !is_sql_file(arg0.as_str()))) {
                    return stdin_database_of(arg0, f0);
                }
                if f0.remote {
                    return Err(QueryError::ExecutionFailed(string_of("Usage: solite query <sql> <database>")));
                }
                Ok((None, SqlSource::Inline(arg0.clone())))
            },
            Some(arg1) => {
                let dash0 = str_eq(arg0.as_str(), "-");
                let dash1 = str_eq(arg1.as_str(), "-");
                if dash0 && dash1 {
                    return Err(QueryError::Stdin(string_of("only one `-` stdin placeholder is allowed")));
                }
                if dash0 {
                    return stdin_database_of(arg1, f1);
                }
                if dash1 {
                    return stdin_database_of(arg0, f0);
                }
                if f1.remote {
                    Ok((Some(arg1.clone()), SqlSource::Inline(arg0.clone())))
                } else if f0.remote {
                    Ok((Some(arg0.clone()), SqlSource::Inline(arg1.clone())))
                } else if is_sql_file(arg1.as_str()) {
                    Ok((Some(arg0.clone()), SqlSource::Inline(arg1.clone())))
                } else if is_sql_file(arg0.as_str()) {
                    Ok((Some(arg1.clone()), SqlSource::Inline(arg0.clone())))
                } else if str_eq(arg1.as_str(), ":memory:") {
                    Ok((Some(arg1.clone()), SqlSource::Inline(arg0.clone())))
                } else if str_eq(arg0.as_str(), ":memory:") {
                    Ok((Some(arg0.clone()), SqlSource::Inline(arg1.clone())))
                } else if f1.exists {
                    Ok((Some(arg1.clone()), SqlSource::Inline(arg0.clone())))
                } else if !f0.exists {
                    let blamed = if is_database_path(arg0.as_str()) && !is_database_path(arg1.as_str()) {
                        arg0.clone()
                    } else {
                        arg1.clone()
                    };
                    Err(QueryError::DatabaseNotFound(blamed))
                } else {
                    Ok((Some(arg0.clone()), SqlSource::Inline(arg1.clone())))
                }
            },
        },
    }
}

/// What to do with a SQL argument: a `.sql` path is a file whose contents
/// are the SQL; anything else is the SQL itself.
pub fn resolve_sql(sql: String) -> (r: SqlInput)
    ensures
        r == (if is_sql_path(sql@) { SqlInput::File(sql) } else { SqlInput::Text(sql) }),
{
    if is_sql_file(sql.as_str()) {
        SqlInput::File(sql)
    } else {
        SqlInput::Text(sql)
    }
}

/// The SQL of a `.sql` file, from the outcome of reading it: the trimmed
/// contents, or a `FileReadError` naming the path and the reason.
pub fn read_sql_outcome(path: String, read: Result<String, String>) -> (r: Result<String, QueryError>)
    ensures
        match read {
            Ok(c) => r matches Ok(s) && s@ == trim_ws(c@),
            Err(m) => r matches Err(e) && e == QueryError::FileReadError(path, m),
        },
{
    match read {
        Ok(c) => Ok(sql_file_text(c.as_str())),
        Err(m) => Err(QueryError::FileReadError(path, m)),
    }
}

} // verus!
