//! Deciding what the `exec` command's positional arguments mean: which one
//! is the database and where the SQL comes from.

use vstd::prelude::*;
use crate::text::{str_eq, string_of, concat3, concat5};

verus! {

/// What the caller found out about an argument as a path.
#[derive(Debug, Clone, Copy, PartialEq, Eq, Structural)]
pub struct ArgFacts {
    /// The path exists on disk.
    pub exists: bool,
    /// The path has the `.sql` extension.
    pub is_sql: bool,
    /// The path has a database extension (`.db`, `.sqlite`, `.sqlite3`).
    pub is_db_path: bool,
}

/// Where the SQL to execute comes from.
#[derive(Debug, PartialEq)]
pub enum SqlSource {
    /// This text is the SQL.
    Text(String),
    /// The SQL is the (trimmed) contents of this `.sql` file.
    File(String),
}

/// What a SQL source holds: `true` with the text for a literal, `false`
/// with the path for a file.
pub open spec fn sql_model(s: SqlSource) -> (bool, Seq<char>) {
    match s {
        SqlSource::Text(t) => (true, t@),
        SqlSource::File(p) => (false, p@),
    }
}

/// The plan of an `exec` call: the database path, if any, and the SQL
/// source (`None`: read the SQL from stdin).
pub type ExecPlanModel = (Option<Seq<char>>, Option<(bool, Seq<char>)>);

/// Whether an argument names a database: `:memory:`, or a path with a
/// database extension.
pub open spec fn is_database_arg(s: Seq<char>, f: ArgFacts) -> bool {
    s == ":memory:"@ || f.is_db_path
}

/// The SQL source of an argument: the contents of a `.sql` file, or the
/// argument itself.
pub open spec fn sql_arg(s: Seq<char>, f: ArgFacts) -> (bool, Seq<char>) {
    if f.is_sql { (false, s) } else { (true, s) }
}

/// The error for a database argument that does not exist and has no
/// database extension.
pub open spec fn missing_db_msg(db: Seq<char>) -> Seq<char> {
    "database '"@ + db + "' does not exist. To create a new database, give it a .db/.sqlite/.sqlite3 extension"@
}

/// What the positional arguments of `exec` mean, as the command decides:
/// no argument or `-` reads SQL from stdin; a lone `.sql` file is the SQL;
/// a lone database (or existing path) is the database, with SQL from stdin
/// when it is piped; any other lone argument is the SQL. With two
/// arguments, `-` reads SQL from stdin and the other is the database; else
/// the one with a database extension is the database, else the `.sql`
/// file is the SQL and the other must exist, else the one that exists is
/// the database.
pub open spec fn exec_plan(args: Seq<Seq<char>>, facts: Seq<ArgFacts>, piped: bool) -> Result<ExecPlanModel, Seq<char>> {
    if args.len() == 0 {
        Ok((None, None))
    } else if args.len() == 1 {
        let only = args[0];
        let f = facts[0];
        if only == "-"@ {
            Ok((None, None))
        } else if f.is_sql {
            Ok((None, Some(sql_arg(only, f))))
        } else if is_database_arg(only, f) || f.exists {
            Ok((Some(only), if piped { None } else { Some((true, Seq::<char>::empty())) }))
        } else {
            Ok((None, Some((true, only))))
        }
    } else if args.len() == 2 {
        let (first, second) = (args[0], args[1]);
        let (f0, f1) = (facts[0], facts[1]);
        if first == "-"@ || second == "-"@ {
            if first == "-"@ && second == "-"@ {
                Err("only one `-` stdin placeholder is allowed"@)
            } else {
                let (db, fd) = if first == "-"@ { (second, f1) } else { (first, f0) };
                if fd.is_sql {
                    Err("cannot combine a .sql file with `-` stdin input"@)
                } else if !(is_database_arg(db, fd) || fd.exists) {
                    Err(missing_db_msg(db))
                } else {
                    Ok((Some(db), None))
                }
            }
        } else {
            let db0 = is_database_arg(first, f0);
            let db1 = is_database_arg(second, f1);
            if db0 && db1 {
                Err("two database arguments given ('"@ + first + "' and '"@ + second
                    + "'); expected one database and one SQL argument"@)
            } else if f0.is_sql && f1.is_sql {
                Err("two .sql file arguments given ('"@ + first + "' and '"@ + second
                    + "'); expected at most one SQL argument"@)
            } else if db0 {
                Ok((Some(first), Some(sql_arg(second, f1))))
            } else if db1 {
                Ok((Some(second), Some(sql_arg(first, f0))))
            } else if f0.is_sql || f1.is_sql {
                let (sql, db, fd) = if f0.is_sql { (first, second, f1) } else { (second, first, f0) };
                if !fd.exists {
                    Err(missing_db_msg(db))
                } else {
                    Ok((Some(db), Some((false, sql))))
                }
            } else if f0.exists {
                Ok((Some(first), Some((true, second))))
            } else if f1.exists {
                Ok((Some(second), Some((true, first))))
            } else {
                Err("cannot tell which argument is the database: neither '"@ + first + "' nor '"@ + second
                    + "' exists on disk. To create a new database, give it a .db/.sqlite/.sqlite3 extension; to run multiple statements, pass them as a single argument"@)
            }
        }
    } else {
        Err("expected at most 2 arguments: a SQL statement and an optional database"@)
    }
}

/// `exec` opens no database it would have to invent without being asked:
/// the database it picks is `:memory:`, has a database extension, or
/// exists.
pub proof fn law_exec_database_is_named_or_exists(args: Seq<Seq<char>>, facts: Seq<ArgFacts>, piped: bool)
    requires
        facts.len() == args.len(),
    ensures
        match exec_plan(args, facts, piped) {
            Ok((Some(db), _)) => exists|i: int|
                0 <= i < args.len() && args[i] == db && (db == ":memory:"@ || facts[i].is_db_path
                    || facts[i].exists),
            _ => true,
        },
{
    if args.len() == 1 {
        assert(args[0] == args[0]);
    } else if args.len() == 2 {
        assert(args[0] == args[0] && args[1] == args[1]);
    }
}

/// The model of a plan.
pub open spec fn plan_model(p: (Option<String>, Option<SqlSource>)) -> ExecPlanModel {
    (
        match p.0 {
            Some(d) => Some(d@),
            None => None,
        },
        match p.1 {
            Some(s) => Some(sql_model(s)),
            None => None,
        },
    )
}

/// Whether an argument names a database.
fn is_db_arg(s: &String, f: ArgFacts) -> (r: bool)
    ensures
        r == is_database_arg(s@, f),
{
    str_eq(s.as_str(), ":memory:") || f.is_db_path
}

/// The SQL source of an argument.
fn resolve_sql_arg(s: &String, f: ArgFacts) -> (r: SqlSource)
    ensures
        sql_model(r) == sql_arg(s@, f),
{
    if f.is_sql {
        SqlSource::File(s.clone())
    } else {
        SqlSource::Text(s.clone())
    }
}

/// The error for a missing database.
fn missing_db(db: &String) -> (r: String)
    ensures
        r@ == missing_db_msg(db@),
{
    concat3(
        "database '",
        db.as_str(),
        "' does not exist. To create a new database, give it a .db/.sqlite/.sqlite3 extension",
    )
}

/// Decides what the positional arguments of `exec` mean, given what the
/// caller found out about each as a path.
pub fn parse_arguments(args: &Vec<String>, facts: &Vec<ArgFacts>, stdin_piped: bool)
    -> (r: Result<(Option<String>, Option<SqlSource>), String>)
    requires
        facts@.len() == args@.len(),
    ensures
        match exec_plan(crate::ast::texts(args@), facts@, stdin_piped) {
            Ok(p) => r matches Ok(v) && plan_model(v) == p,
            Err(m) => r matches Err(e) && e@ == m,
        },
{
    let ghost a = crate::ast::texts(args@);
    if args.len() == 0 {
        return Ok((None, None));
    }
    if args.len() == 1 {
        let only = &args[0];
        let f = facts[0];
        assert(a[0] == only@);
        if str_eq(only.as_str(), "-") {
            return Ok((None, None));
        }
        if f.is_sql {
            return Ok((None, Some(resolve_sql_arg(only, f))));
        }
        if is_db_arg(only, f) || f.exists {
            let sql = if stdin_piped { None } else { Some(SqlSource::Text(String::new())) };
            return Ok((Some(only.clone()), sql));
        }
        return Ok((None, Some(SqlSource::Text(only.clone()))));
    }
    if args.len() == 2 {
        let first = &args[0];
        let second = &args[1];
        let f0 = facts[0];
        let f1 = facts[1];
        assert(a[0] == first@ && a[1] == second@);
        let dash0 = str_eq(first.as_str(), "-");
        let dash1 = str_eq(second.as_str(), "-");
        if dash0 || dash1 {
            if dash0 && dash1 {
                return Err(string_of("only one `-` stdin placeholder is allowed"));
            }
            let (db, fd) = if dash0 { (second, f1) } else { (first, f0) };
            if fd.is_sql {
                return Err(string_of("cannot combine a .sql file with `-` stdin input"));
            }
            if !(is_db_arg(db, fd) || fd.exists) {
                return Err(missing_db(db));
            }
            return Ok((Some(db.clone()), None));
        }
        let db0 = is_db_arg(first, f0);
        let db1 = is_db_arg(second, f1);
        if db0 && db1 {
            return Err(concat5(
                "two database arguments given ('",
                first.as_str(),
                "' and '",
                second.as_str(),
                "'); expected one database and one SQL argument",
            ));
        }
        if f0.is_sql && f1.is_sql {
            return Err(concat5(
                "two .sql file arguments given ('",
                first.as_str(),
                "' and '",
                second.as_str(),
                "'); expected at most one SQL argument",
            ));
        }
        if db0 {
            return Ok((Some(first.clone()), Some(resolve_sql_arg(second, f1))));
        }
        if db1 {
            return Ok((Some(second.clone()), Some(resolve_sql_arg(first, f0))));
        }
        if f0.is_sql || f1.is_sql {
            let (sql, db, fd) = if f0.is_sql { (first, second, f1) } else { (second, first, f0) };
            if !fd.exists {
                return Err(missing_db(db));
            }
            return Ok((Some(db.clone()), Some(SqlSource::File(sql.clone()))));
        }
        if f0.exists {
            return Ok((Some(first.clone()), Some(SqlSource::Text(second.clone()))));
        }
        if f1.exists {
            return Ok((Some(second.clone()), Some(SqlSource::Text(first.clone()))));
        }
        return Err(concat5(
            "cannot tell which argument is the database: neither '",
            first.as_str(),
            "' nor '",
            second.as_str(),
            "' exists on disk. To create a new database, give it a .db/.sqlite/.sqlite3 extension; to run multiple statements, pass them as a single argument",
        ));
    }
    Err(string_of("expected at most 2 arguments: a SQL statement and an optional database"))
}

} // verus!
