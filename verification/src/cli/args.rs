//! The command line of `solite`: its subcommands and their arguments, as
//! plain values (paths are held as text).

use vstd::prelude::*;
use crate::strmap::{StrMap, seq_insert};
use crate::ast::texts;

verus! {

/// Shared arguments for connecting to remote databases over SSH or custom
/// transports.
#[derive(Debug, Clone)]
pub struct RemoteArgs {
    /// Path to the solite binary on the remote machine (for ssh:// connections).
    pub remote_bin: Option<String>,
    /// Custom transport command to reach the remote machine.
    pub transport: Option<String>,
    /// Whether SSH/remote connections are allowed (set from the top-level flag).
    pub allow_ssh: bool,
}

impl Default for RemoteArgs {
    fn default() -> (r: Self)
        ensures
            r.remote_bin is None,
            r.transport is None,
            !r.allow_ssh,
    {
        RemoteArgs { remote_bin: None, transport: None, allow_ssh: false }
    }
}

/// Arguments of `run`.
#[derive(Debug)]
pub struct RunArgs {
    /// Positional arguments, classified by extension.
    pub args: Vec<String>,
    /// SQL and dot commands given as a string.
    pub command: Option<String>,
    /// Flattened `NAME VALUE` parameter pairs.
    pub parameters: Vec<String>,
    /// Where to record an execution trace.
    pub trace: Option<String>,
    /// Open the database read-only.
    pub readonly: bool,
}

/// The parameters named by the first `chunks` pairs of a flattened
/// `NAME VALUE` list, a later pair of a name replacing an earlier one; a
/// name without a value gets the empty text.
pub open spec fn params_of(p: Seq<Seq<char>>, chunks: nat) -> Seq<(Seq<char>, Seq<char>)>
    decreases chunks,
{
    if chunks == 0 {
        Seq::empty()
    } else {
        let k = (chunks - 1) as nat;
        let value = if 2 * k + 1 < p.len() {
            p[2 * k + 1 as int]
        } else {
            Seq::<char>::empty()
        };
        seq_insert(params_of(p, k), p[2 * k as int], value)
    }
}

impl RunArgs {
    /// The parameters as a map from name to value.
    pub fn params(&self) -> (r: StrMap<String>)
        ensures
            r@ == params_of(texts(self.parameters@), ((self.parameters@.len() + 1) / 2) as nat),
    {
        let ghost p = texts(self.parameters@);
        let n = self.parameters.len();
        let chunks = n / 2 + n % 2;
        let mut r: StrMap<String> = StrMap::new();
        let mut k: usize = 0;
        while k < chunks
            invariant
                n == self.parameters@.len(),
                chunks == (n + 1) / 2,
                p == texts(self.parameters@),
                k <= chunks,
                r@ == params_of(p, k as nat),
            decreases chunks - k,
        {
            let i = 2 * k;
            let name = self.parameters[i].clone();
            let value = if i + 1 < n {
                self.parameters[i + 1].clone()
            } else {
                String::new()
            };
            proof {
                assert(p[i as int] == self.parameters@[i as int]@);
                if i + 1 < n {
                    assert(p[i + 1] == self.parameters@[i + 1]@);
                }
            }
            r.insert(name, value);
            k = k + 1;
        }
        r
    }
}

/// Output formats of `query`.
#[derive(Debug, Clone, Copy, PartialEq, Eq, Structural)]
pub enum QueryFormat {
    Csv,
    Tsv,
    Json,
    /// Newline-delimited JSON, one object per row.
    Ndjson,
    /// Bare value of the first column of the first row.
    Value,
    /// Copy results to the system clipboard.
    Clipboard,
}

impl Default for QueryFormat {
    fn default() -> (r: Self)
        ensures
            r == QueryFormat::Json,
    {
        QueryFormat::Json
    }
}

/// Arguments of `query`.
#[derive(Debug)]
pub struct QueryArgs {
    /// SQL to run, or the path of a `.sql` file holding it.
    pub statement: String,
    /// Database file or remote URL; none for in-memory.
    pub database: Option<String>,
    /// Write results to this file.
    pub output: Option<String>,
    /// Output format.
    pub format: Option<QueryFormat>,
    /// Flattened `NAME VALUE` parameter pairs.
    pub parameters: Vec<String>,
    /// Extensions to load before running the query.
    pub load_extension: Option<Vec<String>>,
    /// Remote connection settings.
    pub remote: RemoteArgs,
}

/// Arguments of `execute`.
#[derive(Debug)]
pub struct ExecuteArgs {
    /// SQL statement and optional database path, in any order.
    pub args: Vec<String>,
    /// Reserved; ignored.
    pub output: Option<String>,
    /// Reserved; ignored.
    pub format: Option<QueryFormat>,
    /// Flattened `NAME VALUE` parameter pairs.
    pub parameters: Vec<String>,
}

/// Arguments of `repl`.
#[derive(Debug)]
pub struct ReplArgs {
    pub database: Option<String>,
    pub remote: RemoteArgs,
}

/// Arguments of `bench`.
#[derive(Debug)]
pub struct BenchArgs {
    pub sql: Vec<String>,
    pub database: Option<Vec<String>>,
    /// Flattened `PATH NAME` pairs of databases to attach.
    pub attach: Option<Vec<String>>,
    pub load_extension: Option<Vec<String>>,
}

/// Arguments of `codegen`.
#[derive(Debug)]
pub struct CodegenArgs {
    pub file: String,
    pub schema: Option<String>,
    pub output: Option<String>,
}

/// Arguments of `test`.
#[derive(Debug)]
pub struct TestArgs {
    pub file: String,
    pub database: Option<String>,
    pub verbose: bool,
    /// Accept all snapshot changes.
    pub update: bool,
    /// Review each snapshot change.
    pub review: bool,
}

/// The `jupyter` subcommands.
#[derive(Debug)]
pub struct JupyterNamespace {
    pub command: JupyterCommand,
}

/// A `jupyter` subcommand.
#[derive(Debug)]
pub enum JupyterCommand {
    Install(JupyterInstallArgs),
    Up(JupyterUpArgs),
}

/// Arguments of `jupyter install`.
#[derive(Debug)]
pub struct JupyterInstallArgs {
    pub name: Option<String>,
    pub display: Option<String>,
    pub force: bool,
}

/// Arguments of `jupyter up`.
#[derive(Debug)]
pub struct JupyterUpArgs {
    pub connection: String,
}

/// The `docs` subcommands.
#[derive(Debug)]
pub struct DocsNamespace {
    pub command: DocsCommand,
}

/// A `docs` subcommand.
#[derive(Debug)]
pub enum DocsCommand {
    Inline(DocsInlineArgs),
}

/// Arguments of `docs inline`.
#[derive(Debug)]
pub struct DocsInlineArgs {
    pub input: String,
    pub extension: Option<String>,
    pub output: Option<String>,
}

/// Arguments of `tui`.
#[derive(Debug)]
pub struct TuiArgs {
    pub database: String,
    pub table: Option<String>,
    pub remote: RemoteArgs,
}

/// Arguments of `format`.
#[derive(Debug)]
pub struct FmtArgs {
    /// Files to format (stdin when none).
    pub files: Vec<String>,
    /// Write the formatted output back.
    pub write: bool,
    /// Only check whether the files are formatted.
    pub check: bool,
    /// Show a diff of the changes.
    pub diff: bool,
    /// Path of a config file.
    pub config: Option<String>,
}

/// Arguments of `lint`.
#[derive(Debug)]
pub struct LintArgs {
    /// Files to lint (stdin when none).
    pub files: Vec<String>,
    /// Path of a config file.
    pub config: Option<String>,
    /// Apply the available fixes.
    pub fix: bool,
}

/// Arguments of `lsp`.
#[derive(Debug)]
pub struct LspArgs {
    /// Communicate over stdin/stdout.
    pub stdio: bool,
}

/// Arguments passed through to the sqlite3 shell.
#[derive(Debug)]
pub struct Sqlite3Args {
    pub args: Vec<String>,
}

/// Arguments passed through to sqldiff.
#[derive(Debug)]
pub struct DiffArgs {
    pub args: Vec<String>,
}

/// Arguments passed through to sqlite3_rsync.
#[derive(Debug)]
pub struct RsyncArgs {
    pub args: Vec<String>,
}

/// Arguments of `schema`.
#[derive(Debug)]
pub struct SchemaArgs {
    pub database: String,
}

/// Arguments of `backup`.
#[derive(Debug)]
pub struct BackupArgs {
    /// Source database path.
    pub database: String,
    /// Destination file path.
    pub destination: String,
    /// Which attached database to back up.
    pub db: String,
}

/// Arguments of `vacuum`.
#[derive(Debug)]
pub struct VacuumArgs {
    /// Database to vacuum.
    pub database: String,
    /// Write the vacuumed database to this file instead of in place.
    pub into: Option<String>,
    /// Positional form of `into`.
    pub destination: Option<String>,
}

impl VacuumArgs {
    /// Where to write the vacuumed database: `into` when given, else the
    /// positional destination.
    pub fn into_path(&self) -> (r: Option<&String>)
        ensures
            r == (match self.into {
                Some(p) => Some(&p),
                None => match self.destination {
                    Some(p) => Some(&p),
                    None => None,
                },
            }),
    {
        match &self.into {
            Some(p) => Some(p),
            None => self.destination.as_ref(),
        }
    }
}

/// Arguments of `serve`.
#[derive(Debug)]
pub struct ServeArgs {
    /// Path of the database to serve.
    pub database: String,
}

/// The `stream` subcommands.
#[derive(Debug)]
pub struct StreamNamespace {
    pub command: StreamCommand,
}

/// A `stream` subcommand.
#[derive(Debug)]
pub enum StreamCommand {
    /// Sync WAL changes to a replica.
    Sync(StreamSyncArgs),
    /// Restore a database from a replica.
    Restore(StreamRestoreArgs),
}

/// Arguments of `stream sync`.
#[derive(Debug)]
pub struct StreamSyncArgs {
    pub database: String,
    /// Replica URL.
    pub url: String,
}

/// Arguments of `stream restore`.
#[derive(Debug)]
pub struct StreamRestoreArgs {
    /// Replica URL.
    pub url: String,
    pub database: String,
}

/// The subcommands of `solite`.
#[derive(Debug)]
pub enum Commands {
    Run(RunArgs),
    Repl(ReplArgs),
    Query(QueryArgs),
    Execute(ExecuteArgs),
    Test(TestArgs),
    Jupyter(JupyterNamespace),
    Docs(DocsNamespace),
    Bench(BenchArgs),
    Codegen(CodegenArgs),
    Tui(TuiArgs),
    Format(FmtArgs),
    Lint(LintArgs),
    Lsp(LspArgs),
    Sqlite3(Sqlite3Args),
    Diff(DiffArgs),
    Rsync(RsyncArgs),
    Schema(SchemaArgs),
    Backup(BackupArgs),
    Vacuum(VacuumArgs),
    Serve(ServeArgs),
    Stream(StreamNamespace),
}

/// The parsed command line.
#[derive(Debug)]
pub struct Cli {
    /// Allow SSH and remote transport connections.
    pub allow_ssh: bool,
    pub command: Box<Commands>,
}

} // verus!
