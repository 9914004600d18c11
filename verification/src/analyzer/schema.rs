//! The schema of a SQL document: tables, indexes, views, triggers and
//! functions, keyed case-insensitively by their lowercased names.

use vstd::prelude::*;
use crate::ast::{DocComment, Span, texts, Expr, ResultColumn, ColumnDef, IndexedColumn, Program, Statement, TableOption, TriggerEvent, copy_strings};
use crate::strmap::{
    StrMap, seq_insert, seq_remove, seq_override, lookup, has_key, key_pos, unique_keys, lemma_override,
    lemma_insert, lemma_remove,
};
use crate::text::{spec_lowercase, to_lower, string_of};

verus! {

/// Severity of an analyzer diagnostic.
#[derive(Debug, Clone, Copy, PartialEq, Eq)]
pub enum Severity {
    Error,
    Warning,
}

/// A problem found by the analyzer at a span of the source.
#[derive(Debug, Clone, PartialEq)]
pub struct Diagnostic {
    pub message: String,
    pub span: Span,
    pub severity: Severity,
}

/// What a diagnostic holds: message, span, severity.
pub type DiagModel = (Seq<char>, Span, Severity);

impl View for Diagnostic {
    type V = DiagModel;

    open spec fn view(&self) -> DiagModel {
        (self.message@, self.span, self.severity)
    }
}

impl Diagnostic {
    /// An error with the given message.
    pub fn error(message: String, span: Span) -> (r: Self)
        ensures
            r.message@ == message@,
            r.span == span,
            r.severity == Severity::Error,
    {
        Diagnostic { message, span, severity: Severity::Error }
    }

    /// A warning with the given message.
    pub fn warning(message: String, span: Span) -> (r: Self)
        ensures
            r.message@ == message@,
            r.span == span,
            r.severity == Severity::Warning,
    {
        Diagnostic { message, span, severity: Severity::Warning }
    }
}

/// What a doc comment holds: its description and its tags.
pub type DocModel = (Seq<char>, Seq<(Seq<char>, Seq<String>)>);

/// The model of an optional doc comment.
pub open spec fn opt_doc(d: Option<DocComment>) -> Option<DocModel> {
    match d {
        Some(d) => Some(d@),
        None => None,
    }
}

/// A copy of an optional doc comment.
pub fn copy_opt_doc(d: &Option<DocComment>) -> (r: Option<DocComment>)
    ensures
        opt_doc(r) == opt_doc(*d),
{
    match d {
        Some(d) => Some(d.duplicate()),
        None => None,
    }
}

/// Table info tracked during analysis.
#[derive(Debug, Clone, PartialEq)]
pub struct TableInfo {
    /// Column names, lowercased, for case-insensitive lookup.
    pub columns: StrMap<()>,
    /// Original column names (preserving case).
    pub original_columns: Vec<String>,
    /// Whether the table was created WITHOUT ROWID.
    pub without_rowid: bool,
    /// Table-level documentation from `--!` comments.
    pub doc: Option<DocComment>,
    /// Column-level documentation: lowercased column name -> doc comment.
    pub column_docs: StrMap<DocComment>,
}

/// What a table info holds.
pub struct TableModel {
    pub columns: Seq<(Seq<char>, ())>,
    pub original_columns: Seq<Seq<char>>,
    pub without_rowid: bool,
    pub doc: Option<DocModel>,
    pub column_docs: Seq<(Seq<char>, DocModel)>,
}

impl View for TableInfo {
    type V = TableModel;

    open spec fn view(&self) -> TableModel {
        TableModel {
            columns: self.columns@,
            original_columns: texts(self.original_columns@),
            without_rowid: self.without_rowid,
            doc: opt_doc(self.doc),
            column_docs: self.column_docs@,
        }
    }
}

/// Index info tracked during analysis.
#[derive(Debug, Clone, PartialEq)]
pub struct IndexInfo {
    /// Original index name.
    pub name: String,
    /// The table the index is on.
    pub table_name: String,
    /// Indexed columns (original case).
    pub columns: Vec<String>,
    /// Whether this is a UNIQUE index.
    pub is_unique: bool,
}

/// What an index info holds.
pub struct IndexModel {
    pub name: Seq<char>,
    pub table_name: Seq<char>,
    pub columns: Seq<Seq<char>>,
    pub is_unique: bool,
}

impl View for IndexInfo {
    type V = IndexModel;

    open spec fn view(&self) -> IndexModel {
        IndexModel {
            name: self.name@,
            table_name: self.table_name@,
            columns: texts(self.columns@),
            is_unique: self.is_unique,
        }
    }
}

/// View info tracked during analysis.
#[derive(Debug, Clone, PartialEq)]
pub struct ViewInfo {
    /// Original view name.
    pub name: String,
    /// Columns given explicitly or inferred from the SELECT.
    pub columns: Vec<String>,
}

/// What a view info holds.
pub struct ViewModel {
    pub name: Seq<char>,
    pub columns: Seq<Seq<char>>,
}

impl View for ViewInfo {
    type V = ViewModel;

    open spec fn view(&self) -> ViewModel {
        ViewModel { name: self.name@, columns: texts(self.columns@) }
    }
}

/// Trigger info tracked during analysis.
#[derive(Debug, Clone, PartialEq)]
pub struct TriggerInfo {
    /// Original trigger name.
    pub name: String,
    /// The table the trigger is on.
    pub table_name: String,
    /// The event that fires the trigger.
    pub event: TriggerEventType,
}

/// What a trigger info holds.
pub struct TriggerModel {
    pub name: Seq<char>,
    pub table_name: Seq<char>,
    pub event: TriggerEventType,
}

impl View for TriggerInfo {
    type V = TriggerModel;

    open spec fn view(&self) -> TriggerModel {
        TriggerModel { name: self.name@, table_name: self.table_name@, event: self.event }
    }
}

/// Simplified trigger event type for schema tracking.
#[derive(Debug, Clone, Copy, PartialEq, Eq)]
pub enum TriggerEventType {
    Insert,
    Update,
    Delete,
}

/// Schema containing the definitions of a document.
#[derive(Debug, Clone)]
pub struct Schema {
    tables: StrMap<TableInfo>,
    original_names: StrMap<String>,
    indexes: StrMap<IndexInfo>,
    views: StrMap<ViewInfo>,
    triggers: StrMap<TriggerInfo>,
    functions: Vec<String>,
    function_nargs: StrMap<Vec<i32>>,
}

/// What a schema holds; every registry is keyed by lowercased name.
pub struct SchemaModel {
    pub tables: Seq<(Seq<char>, TableModel)>,
    pub original_names: Seq<(Seq<char>, Seq<char>)>,
    pub indexes: Seq<(Seq<char>, IndexModel)>,
    pub views: Seq<(Seq<char>, ViewModel)>,
    pub triggers: Seq<(Seq<char>, TriggerModel)>,
    pub functions: Seq<Seq<char>>,
    pub function_nargs: Seq<(Seq<char>, Seq<i32>)>,
}

impl View for Schema {
    type V = SchemaModel;

    closed spec fn view(&self) -> SchemaModel {
        SchemaModel {
            tables: self.tables@,
            original_names: self.original_names@,
            indexes: self.indexes@,
            views: self.views@,
            triggers: self.triggers@,
            functions: texts(self.functions@),
            function_nargs: self.function_nargs@,
        }
    }
}

/// Every registry holds each lowercased name once.
pub open spec fn registries_unique(m: SchemaModel) -> bool {
    &&& unique_keys(m.tables)
    &&& unique_keys(m.original_names)
    &&& unique_keys(m.indexes)
    &&& unique_keys(m.views)
    &&& unique_keys(m.triggers)
    &&& unique_keys(m.function_nargs)
}

/// The schema with nothing in it.
pub open spec fn empty_model() -> SchemaModel {
    SchemaModel {
        tables: seq![],
        original_names: seq![],
        indexes: seq![],
        views: seq![],
        triggers: seq![],
        functions: seq![],
        function_nargs: seq![],
    }
}

/// The lowercased column names, each once, in order of first appearance.
pub open spec fn lower_set(cols: Seq<Seq<char>>) -> Seq<(Seq<char>, ())>
    decreases cols.len(),
{
    if cols.len() == 0 {
        seq![]
    } else {
        seq_insert(lower_set(cols.drop_last()), spec_lowercase(cols.last()), ())
    }
}

/// The table that `add_table_with_doc` registers.
pub open spec fn table_model(
    columns: Seq<Seq<char>>,
    without_rowid: bool,
    doc: Option<DocModel>,
    column_docs: Seq<(Seq<char>, DocModel)>,
) -> TableModel {
    TableModel {
        columns: lower_set(columns),
        original_columns: columns,
        without_rowid,
        doc,
        column_docs,
    }
}

/// The model of a table whose columns are unknown (virtual tables, CTEs).
pub open spec fn opaque_table() -> TableModel {
    TableModel {
        columns: seq![],
        original_columns: seq![],
        without_rowid: true,
        doc: None,
        column_docs: seq![],
    }
}

/// The lowercased set of `columns`.
pub fn lower_set_of(columns: &Vec<String>) -> (r: StrMap<()>)
    ensures
        r@ == lower_set(texts(columns@)),
{
    let mut set: StrMap<()> = StrMap::new();
    let mut i: usize = 0;
    while i < columns.len()
        invariant
            i <= columns.len(),
            set@ == lower_set(texts(columns@.subrange(0, i as int))),
        decreases columns.len() - i,
    {
        let l = to_lower(columns[i].as_str());
        set.insert(l, ());
        i = i + 1;
        assert(texts(columns@.subrange(0, i as int)).drop_last() =~= texts(columns@.subrange(0, i - 1)));
    }
    assert(columns@.subrange(0, columns.len() as int) =~= columns@);
    set
}

impl Default for Schema {
    /// An empty schema.
    fn default() -> (r: Self)
        ensures
            r@ == empty_model(),
    {
        Schema::new()
    }
}

impl Default for TableInfo {
    /// A table with no columns, no documentation, and a rowid.
    fn default() -> (r: Self)
        ensures
            r@ == (TableModel {
                columns: seq![],
                original_columns: seq![],
                without_rowid: false,
                doc: None,
                column_docs: seq![],
            }),
    {
        let r = TableInfo {
            columns: StrMap::new(),
            original_columns: Vec::new(),
            without_rowid: false,
            doc: None,
            column_docs: StrMap::new(),
        };
        assert(texts(r.original_columns@) =~= Seq::<Seq<char>>::empty());
        r
    }
}

impl Schema {
    /// An empty schema.
    pub fn new() -> (r: Self)
        ensures
            r@ == empty_model(),
            names_match(r@),
    {
        proof {
            law_table_names_match_tables(empty_model(), empty_model(), seq![], seq![], opaque_table());
        }
        let r = Schema {
            tables: StrMap::new(),
            original_names: StrMap::new(),
            indexes: StrMap::new(),
            views: StrMap::new(),
            triggers: StrMap::new(),
            functions: Vec::new(),
            function_nargs: StrMap::new(),
        };
        assert(texts(r.functions@) =~= Seq::<Seq<char>>::empty());
        r
    }

    /// Adds a table without documentation.
    pub fn add_table(&mut self, name: &str, columns: Vec<String>, without_rowid: bool)
        ensures
            final(self)@ == (SchemaModel {
                tables: seq_insert(old(self)@.tables, spec_lowercase(name@),
                    table_model(texts(columns@), without_rowid, None, seq![])),
                original_names: seq_insert(old(self)@.original_names, spec_lowercase(name@), name@),
                ..old(self)@
            }),
            names_match(old(self)@) ==> names_match(final(self)@),
    {
        self.add_table_with_doc(name, columns, without_rowid, None, StrMap::new());
    }

    /// Adds a table with its documentation; a table of the same name
    /// (case-insensitively) is replaced.
    pub fn add_table_with_doc(
        &mut self,
        name: &str,
        columns: Vec<String>,
        without_rowid: bool,
        doc: Option<DocComment>,
        column_docs: StrMap<DocComment>,
    )
        ensures
            final(self)@ == (SchemaModel {
                tables: seq_insert(old(self)@.tables, spec_lowercase(name@),
                    table_model(texts(columns@), without_rowid, opt_doc(doc), column_docs@)),
                original_names: seq_insert(old(self)@.original_names, spec_lowercase(name@), name@),
                ..old(self)@
            }),
            names_match(old(self)@) ==> names_match(final(self)@),
    {
        self.registries_are_unique();
        let ghost before = self@;
        let ghost t = table_model(texts(columns@), without_rowid, opt_doc(doc), column_docs@);
        let table_key = to_lower(name);
        let col_set = lower_set_of(&columns);
        let info = TableInfo {
            columns: col_set,
            original_columns: columns,
            without_rowid,
            doc,
            column_docs,
        };
        self.tables.insert(table_key.clone(), info);
        self.original_names.insert(table_key, string_of(name));
        proof {
            law_table_names_match_tables(before, before, spec_lowercase(name@), name@, t);
            if names_match(before) {
                assert(self@.tables == seq_insert(before.tables, spec_lowercase(name@), t));
                assert(self@.original_names == seq_insert(before.original_names, spec_lowercase(name@), name@));
                assert(names_match(self@));
            }
        }
    }

    /// Adds a view; a view of the same name (case-insensitively) is replaced.
    pub fn add_view(&mut self, name: &str, columns: Vec<String>)
        ensures
            final(self)@ == (SchemaModel {
                views: seq_insert(old(self)@.views, spec_lowercase(name@),
                    ViewModel { name: name@, columns: texts(columns@) }),
                ..old(self)@
            }),
    {
        let key = to_lower(name);
        self.views.insert(key, ViewInfo { name: string_of(name), columns });
    }

    /// Adds an index; an index of the same name (case-insensitively) is replaced.
    pub fn add_index(&mut self, name: &str, table_name: &str, columns: Vec<String>, is_unique: bool)
        ensures
            final(self)@ == (SchemaModel {
                indexes: seq_insert(old(self)@.indexes, spec_lowercase(name@),
                    IndexModel { name: name@, table_name: table_name@, columns: texts(columns@), is_unique }),
                ..old(self)@
            }),
    {
        let key = to_lower(name);
        self.indexes.insert(key, IndexInfo {
            name: string_of(name),
            table_name: string_of(table_name),
            columns,
            is_unique,
        });
    }

    /// Adds a trigger; a trigger of the same name (case-insensitively) is replaced.
    pub fn add_trigger(&mut self, name: &str, table_name: &str, event: TriggerEventType)
        ensures
            final(self)@ == (SchemaModel {
                triggers: seq_insert(old(self)@.triggers, spec_lowercase(name@),
                    TriggerModel { name: name@, table_name: table_name@, event }),
                ..old(self)@
            }),
    {
        let key = to_lower(name);
        self.triggers.insert(key, TriggerInfo {
            name: string_of(name),
            table_name: string_of(table_name),
            event,
        });
    }

    /// Merges `other` into this schema, later definitions overriding
    /// earlier ones: its tables, names, indexes, views, triggers and
    /// argument counts replace those of the same name here; its functions
    /// not already listed here are appended.
    pub fn merge(&mut self, other: Schema)
        ensures
            final(self)@ == (SchemaModel {
                tables: seq_override(old(self)@.tables, other@.tables),
                original_names: seq_override(old(self)@.original_names, other@.original_names),
                indexes: seq_override(old(self)@.indexes, other@.indexes),
                views: seq_override(old(self)@.views, other@.views),
                triggers: seq_override(old(self)@.triggers, other@.triggers),
                functions: old(self)@.functions + other@.functions.filter(
                    |f: Seq<char>| !old(self)@.functions.contains(f)),
                function_nargs: seq_override(old(self)@.function_nargs, other@.function_nargs),
            }),
            names_match(old(self)@) && names_match(other@) ==> names_match(final(self)@),
    {
        self.registries_are_unique();
        other.registries_are_unique();
        let ghost before = self@;
        let ghost incoming_model = other@;
        let Schema { tables, original_names, indexes, views, triggers, functions, function_nargs } = other;
        self.tables.override_with(tables);
        self.original_names.override_with(original_names);
        self.indexes.override_with(indexes);
        self.views.override_with(views);
        self.triggers.override_with(triggers);
        let ghost existing = texts(self.functions@);
        let ghost incoming = texts(functions@);
        let ghost keep = |f: Seq<char>| !existing.contains(f);
        let mut fresh: Vec<String> = Vec::new();
        let mut i: usize = 0;
        while i < functions.len()
            invariant
                i <= functions.len(),
                existing == texts(self.functions@),
                incoming == texts(functions@),
                keep == (|f: Seq<char>| !existing.contains(f)),
                texts(fresh@) == incoming.subrange(0, i as int).filter(keep),
            decreases functions.len() - i,
        {
            let f = &functions[i];
            let present = contains_text(&self.functions, f.as_str());
            let ghost before = fresh@;
            if !present {
                fresh.push(f.clone());
            }
            proof {
                let sub = incoming.subrange(0, i + 1);
                assert(sub.drop_last() =~= incoming.subrange(0, i as int));
                assert(sub.last() == incoming[i as int]);
                assert(incoming[i as int] == f@);
                assert(keep(f@) == !present);
                reveal(Seq::filter);
                assert(sub.filter(keep) == if keep(sub.last()) {
                    sub.drop_last().filter(keep).push(sub.last())
                } else {
                    sub.drop_last().filter(keep)
                });
                if !present {
                    assert(texts(fresh@) =~= texts(before).push(f@));
                } else {
                    assert(fresh@ == before);
                }
            }
            i = i + 1;
            assert(texts(fresh@) =~= incoming.subrange(0, i as int).filter(keep));
        }
        assert(incoming.subrange(0, functions.len() as int) =~= incoming);
        let ghost base = self.functions@;
        let ghost fresh_v = fresh@;
        self.functions.append(&mut fresh);
        assert(texts(self.functions@) =~= texts(base) + texts(fresh_v));
        assert(keep =~= (|f: Seq<char>| !old(self)@.functions.contains(f)));
        self.function_nargs.override_with(function_nargs);
        assert(self@.tables == seq_override(old(self)@.tables, other@.tables));
        assert(self@.views == seq_override(old(self)@.views, other@.views));
        assert(self@.functions == old(self)@.functions + other@.functions.filter(
                    |f: Seq<char>| !old(self)@.functions.contains(f)));
        assert(self@.function_nargs == seq_override(old(self)@.function_nargs, other@.function_nargs));
        proof {
            law_table_names_match_tables(before, incoming_model, seq![], seq![], opaque_table());
            if names_match(before) && names_match(incoming_model) {
                let lit = SchemaModel {
                    tables: seq_override(before.tables, incoming_model.tables),
                    original_names: seq_override(before.original_names, incoming_model.original_names),
                    ..before
                };
                assert(names_match(lit));
                assert(self@.original_names == seq_override(before.original_names, incoming_model.original_names));
                assert(self@.tables == seq_override(before.tables, incoming_model.tables));
                assert forall|k: Seq<char>| #[trigger] has_key(self@.tables, k) == has_key(self@.original_names, k) by {
                    assert(has_key(lit.tables, k) == has_key(lit.original_names, k));
                }
                assert(names_match(self@));
            }
        }
    }

    /// Every registry of a schema holds each lowercased name once.
    pub fn registries_are_unique(&self)
        ensures
            registries_unique(self@),
    {
        self.tables.keys_are_unique();
        self.original_names.keys_are_unique();
        self.indexes.keys_are_unique();
        self.views.keys_are_unique();
        self.triggers.keys_are_unique();
        self.function_nargs.keys_are_unique();
    }

    /// The original names of all tables.
    pub fn table_names(&self) -> (r: Vec<String>)
        ensures
            texts(r@) == self@.original_names.map_values(|p: (Seq<char>, Seq<char>)| p.1),
    {
        let mut r: Vec<String> = Vec::new();
        let mut i: usize = 0;
        while i < self.original_names.len()
            invariant
                i <= self.original_names@.len(),
                r@.len() == i,
                forall|j: int| 0 <= j < i ==> #[trigger] r@[j]@ == self@.original_names[j].1,
            decreases self.original_names@.len() - i,
        {
            r.push(self.original_names.value_at(i).clone());
            i = i + 1;
        }
        assert(texts(r@) =~= self@.original_names.map_values(|p: (Seq<char>, Seq<char>)| p.1));
        r
    }

    /// The original column names of a table (case-insensitive lookup).
    pub fn columns_for_table(&self, table_name: &str) -> (r: Option<&[String]>)
        ensures
            match lookup(self@.tables, spec_lowercase(table_name@)) {
                Some(t) => r matches Some(c) && texts(c@) == t.original_columns,
                None => r is None,
            },
    {
        let key = to_lower(table_name);
        match self.tables.get(key.as_str()) {
            Some(t) => Some(t.original_columns.as_slice()),
            None => None,
        }
    }

    /// The column names of a table, followed by `rowid` unless the table is
    /// WITHOUT ROWID (case-insensitive lookup).
    pub fn columns_for_table_with_rowid(&self, table_name: &str) -> (r: Option<Vec<String>>)
        ensures
            match lookup(self@.tables, spec_lowercase(table_name@)) {
                Some(t) => r matches Some(c) && texts(c@) == if t.without_rowid {
                    t.original_columns
                } else {
                    t.original_columns.push("rowid"@)
                },
                None => r is None,
            },
    {
        let key = to_lower(table_name);
        match self.tables.get(key.as_str()) {
            Some(t) => {
                let mut cols = crate::ast::copy_strings(&t.original_columns);
                if !t.without_rowid {
                    let ghost before = cols@;
                    cols.push(string_of("rowid"));
                    assert(texts(cols@) =~= texts(before).push("rowid"@));
                }
                Some(cols)
            }
            None => None,
        }
    }

    /// The info of a table (case-insensitive lookup).
    pub fn get_table(&self, table_name: &str) -> (r: Option<&TableInfo>)
        ensures
            unique_keys(self@.tables),
            match r {
                Some(t) => lookup(self@.tables, spec_lowercase(table_name@)) == Some(t@),
                None => lookup(self@.tables, spec_lowercase(table_name@)) is None,
            },
    {
        let key = to_lower(table_name);
        self.tables.get(key.as_str())
    }

    /// Whether a table exists (case-insensitive).
    pub fn has_table(&self, table_name: &str) -> (r: bool)
        ensures
            r == has_key(self@.tables, spec_lowercase(table_name@)),
    {
        let key = to_lower(table_name);
        self.tables.contains_key(key.as_str())
    }

    /// The original names of all indexes.
    pub fn index_names(&self) -> (r: Vec<String>)
        ensures
            texts(r@) == self@.indexes.map_values(|p: (Seq<char>, IndexModel)| p.1.name),
    {
        let mut r: Vec<String> = Vec::new();
        let mut i: usize = 0;
        while i < self.indexes.len()
            invariant
                i <= self.indexes@.len(),
                r@.len() == i,
                forall|j: int| 0 <= j < i ==> #[trigger] r@[j]@ == self@.indexes[j].1.name,
            decreases self.indexes@.len() - i,
        {
            r.push(self.indexes.value_at(i).name.clone());
            i = i + 1;
        }
        assert(texts(r@) =~= self@.indexes.map_values(|p: (Seq<char>, IndexModel)| p.1.name));
        r
    }

    /// The info of an index (case-insensitive lookup).
    pub fn get_index(&self, index_name: &str) -> (r: Option<&IndexInfo>)
        ensures
            unique_keys(self@.indexes),
            match r {
                Some(t) => lookup(self@.indexes, spec_lowercase(index_name@)) == Some(t@),
                None => lookup(self@.indexes, spec_lowercase(index_name@)) is None,
            },
    {
        let key = to_lower(index_name);
        self.indexes.get(key.as_str())
    }

    /// Whether an index exists (case-insensitive).
    pub fn has_index(&self, index_name: &str) -> (r: bool)
        ensures
            r == has_key(self@.indexes, spec_lowercase(index_name@)),
    {
        let key = to_lower(index_name);
        self.indexes.contains_key(key.as_str())
    }

    /// The original names of all views.
    pub fn view_names(&self) -> (r: Vec<String>)
        ensures
            texts(r@) == self@.views.map_values(|p: (Seq<char>, ViewModel)| p.1.name),
    {
        let mut r: Vec<String> = Vec::new();
        let mut i: usize = 0;
        while i < self.views.len()
            invariant
                i <= self.views@.len(),
                r@.len() == i,
                forall|j: int| 0 <= j < i ==> #[trigger] r@[j]@ == self@.views[j].1.name,
            decreases self.views@.len() - i,
        {
            r.push(self.views.value_at(i).name.clone());
            i = i + 1;
        }
        assert(texts(r@) =~= self@.views.map_values(|p: (Seq<char>, ViewModel)| p.1.name));
        r
    }

    /// The info of a view (case-insensitive lookup).
    pub fn get_view(&self, view_name: &str) -> (r: Option<&ViewInfo>)
        ensures
            unique_keys(self@.views),
            match r {
                Some(t) => lookup(self@.views, spec_lowercase(view_name@)) == Some(t@),
                None => lookup(self@.views, spec_lowercase(view_name@)) is None,
            },
    {
        let key = to_lower(view_name);
        self.views.get(key.as_str())
    }

    /// Whether a view exists (case-insensitive).
    pub fn has_view(&self, view_name: &str) -> (r: bool)
        ensures
            r == has_key(self@.views, spec_lowercase(view_name@)),
    {
        let key = to_lower(view_name);
        self.views.contains_key(key.as_str())
    }

    /// The column names of a view (case-insensitive lookup).
    pub fn columns_for_view(&self, view_name: &str) -> (r: Option<&[String]>)
        ensures
            match lookup(self@.views, spec_lowercase(view_name@)) {
                Some(v) => r matches Some(c) && texts(c@) == v.columns,
                None => r is None,
            },
    {
        let key = to_lower(view_name);
        match self.views.get(key.as_str()) {
            Some(v) => Some(v.columns.as_slice()),
            None => None,
        }
    }

    /// The original names of all triggers.
    pub fn trigger_names(&self) -> (r: Vec<String>)
        ensures
            texts(r@) == self@.triggers.map_values(|p: (Seq<char>, TriggerModel)| p.1.name),
    {
        let mut r: Vec<String> = Vec::new();
        let mut i: usize = 0;
        while i < self.triggers.len()
            invariant
                i <= self.triggers@.len(),
                r@.len() == i,
                forall|j: int| 0 <= j < i ==> #[trigger] r@[j]@ == self@.triggers[j].1.name,
            decreases self.triggers@.len() - i,
        {
            r.push(self.triggers.value_at(i).name.clone());
            i = i + 1;
        }
        assert(texts(r@) =~= self@.triggers.map_values(|p: (Seq<char>, TriggerModel)| p.1.name));
        r
    }

    /// The info of a trigger (case-insensitive lookup).
    pub fn get_trigger(&self, trigger_name: &str) -> (r: Option<&TriggerInfo>)
        ensures
            unique_keys(self@.triggers),
            match r {
                Some(t) => lookup(self@.triggers, spec_lowercase(trigger_name@)) == Some(t@),
                None => lookup(self@.triggers, spec_lowercase(trigger_name@)) is None,
            },
    {
        let key = to_lower(trigger_name);
        self.triggers.get(key.as_str())
    }

    /// Whether a trigger exists (case-insensitive).
    pub fn has_trigger(&self, trigger_name: &str) -> (r: bool)
        ensures
            r == has_key(self@.triggers, spec_lowercase(trigger_name@)),
    {
        let key = to_lower(trigger_name);
        self.triggers.contains_key(key.as_str())
    }

    /// Replaces the list of available scalar function names.
    pub fn set_functions(&mut self, functions: Vec<String>)
        ensures
            final(self)@ == (SchemaModel { functions: texts(functions@), ..old(self)@ }),
    {
        self.functions = functions;
    }

    /// Replaces the argument-count metadata: lowercased function name ->
    /// valid argument counts, where -1 means any number.
    pub fn set_function_nargs(&mut self, nargs: StrMap<Vec<i32>>)
        ensures
            final(self)@ == (SchemaModel { function_nargs: nargs@, ..old(self)@ }),
    {
        self.function_nargs = nargs;
    }

    /// The list of function names.
    pub fn function_names_list(&self) -> (r: &[String])
        ensures
            texts(r@) == self@.functions,
    {
        self.functions.as_slice()
    }

    /// The valid argument counts of a function (case-insensitive), if known.
    pub fn function_nargs(&self, name: &str) -> (r: Option<&[i32]>)
        ensures
            match lookup(self@.function_nargs, spec_lowercase(name@)) {
                Some(n) => r matches Some(c) && c@ == n,
                None => r is None,
            },
    {
        let key = to_lower(name);
        match self.function_nargs.get(key.as_str()) {
            Some(v) => Some(v.as_slice()),
            None => None,
        }
    }

    /// The argument-count registry itself.
    pub fn nargs_registry(&self) -> (r: &StrMap<Vec<i32>>)
        ensures
            r@ == self@.function_nargs,
    {
        &self.function_nargs
    }
}

/// Whether one of `v` has exactly the characters of `s`.
pub fn contains_text(v: &Vec<String>, s: &str) -> (r: bool)
    ensures
        r == texts(v@).contains(s@),
{
    let mut i: usize = 0;
    while i < v.len()
        invariant
            i <= v.len(),
            forall|j: int| 0 <= j < i ==> #[trigger] v@[j]@ != s@,
        decreases v.len() - i,
    {
        if crate::text::str_eq(v[i].as_str(), s) {
            assert(texts(v@)[i as int] == s@);
            return true;
        }
        i = i + 1;
    }
    assert(!texts(v@).contains(s@)) by {
        if texts(v@).contains(s@) {
            let j = choose|j: int| 0 <= j < texts(v@).len() && texts(v@)[j] == s@;
            assert(v@[j]@ == s@);
        }
    }
    false
}

/// Merging lets later definitions override earlier ones: after
/// `a.merge(b)`, a name defined in `b` resolves to `b`'s table, original
/// name, index, view, trigger or argument counts, and any other name
/// resolves as it did in `a`.
pub proof fn law_merge_overrides(a: SchemaModel, b: SchemaModel, k: Seq<char>)
    requires
        registries_unique(a),
        registries_unique(b),
    ensures
        lookup(seq_override(a.tables, b.tables), k) == match lookup(b.tables, k) {
            Some(t) => Some(t),
            None => lookup(a.tables, k),
        },
        lookup(seq_override(a.original_names, b.original_names), k) == match lookup(b.original_names, k) {
            Some(t) => Some(t),
            None => lookup(a.original_names, k),
        },
        lookup(seq_override(a.indexes, b.indexes), k) == match lookup(b.indexes, k) {
            Some(t) => Some(t),
            None => lookup(a.indexes, k),
        },
        lookup(seq_override(a.views, b.views), k) == match lookup(b.views, k) {
            Some(t) => Some(t),
            None => lookup(a.views, k),
        },
        lookup(seq_override(a.triggers, b.triggers), k) == match lookup(b.triggers, k) {
            Some(t) => Some(t),
            None => lookup(a.triggers, k),
        },
        lookup(seq_override(a.function_nargs, b.function_nargs), k) == match lookup(b.function_nargs, k) {
            Some(n) => Some(n),
            None => lookup(a.function_nargs, k),
        },
{
    lemma_override(a.tables, b.tables, k);
    lemma_override(a.original_names, b.original_names, k);
    lemma_override(a.indexes, b.indexes, k);
    lemma_override(a.views, b.views, k);
    lemma_override(a.triggers, b.triggers, k);
    lemma_override(a.function_nargs, b.function_nargs, k);
}

/// Every registry of the schema a program defines holds each name once.
pub proof fn lemma_schema_of_unique(stmts: Seq<Statement>)
    ensures
        unique_keys(schema_of(stmts).tables),
        unique_keys(schema_of(stmts).original_names),
        unique_keys(schema_of(stmts).indexes),
        unique_keys(schema_of(stmts).views),
        unique_keys(schema_of(stmts).triggers),
    decreases stmts.len(),
{
    if stmts.len() > 0 {
        let m = schema_of(stmts.drop_last());
        lemma_schema_of_unique(stmts.drop_last());
        match stmts.last() {
            Statement::CreateTable(c) => {
                let key = spec_lowercase(c.table_name@);
                lemma_insert(m.tables, key, created_table(c.columns@, c.table_options@, c.doc));
                lemma_insert(m.original_names, key, c.table_name@);
            },
            Statement::CreateIndex(c) => {
                lemma_insert(m.indexes, spec_lowercase(c.index_name@), IndexModel {
                    name: c.index_name@,
                    table_name: c.table_name@,
                    columns: index_columns(c.columns@),
                    is_unique: c.unique,
                });
            },
            Statement::CreateView(c) => {
                lemma_insert(m.views, spec_lowercase(c.view_name@), ViewModel {
                    name: c.view_name@,
                    columns: match c.columns {
                        Some(cols) => texts(cols@),
                        None => view_columns(c.select.columns@),
                    },
                });
            },
            Statement::CreateTrigger(c) => {
                lemma_insert(m.triggers, spec_lowercase(c.trigger_name@), TriggerModel {
                    name: c.trigger_name@,
                    table_name: c.table_name@,
                    event: match c.event {
                        TriggerEvent::Insert => TriggerEventType::Insert,
                        TriggerEvent::Update { .. } => TriggerEventType::Update,
                        TriggerEvent::Delete => TriggerEventType::Delete,
                    },
                });
            },
            Statement::CreateVirtualTable(c) => {
                let key = spec_lowercase(c.table_name@);
                lemma_insert(m.tables, key, opaque_table());
                lemma_insert(m.original_names, key, c.table_name@);
            },
            Statement::DropTable(d) => {
                let key = spec_lowercase(d.table_name@);
                lemma_remove(m.tables, key);
                lemma_remove(m.original_names, key);
            },
            Statement::DropIndex(d) => {
                lemma_remove(m.indexes, spec_lowercase(d.index_name@));
            },
            Statement::DropView(d) => {
                lemma_remove(m.views, spec_lowercase(d.view_name@));
            },
            Statement::DropTrigger(d) => {
                lemma_remove(m.triggers, spec_lowercase(d.trigger_name@));
            },
            _ => {},
        }
    }
}

/// CREATE TABLE registers the table under its lowercased name, replacing
/// an earlier table of that name (a table re-created after a DROP, or
/// re-defined, has its newest definition), and keeps its original name;
/// every other table is as it was.
pub proof fn law_create_table_registers(stmts: Seq<Statement>, c: crate::ast::CreateTableStmt, other: Seq<char>)
    ensures
        ({
            let after = schema_of(stmts.push(Statement::CreateTable(c)));
            let key = spec_lowercase(c.table_name@);
            &&& lookup(after.tables, key) == Some(created_table(c.columns@, c.table_options@, c.doc))
            &&& lookup(after.original_names, key) == Some(c.table_name@)
            &&& other != key ==> lookup(after.tables, other) == lookup(schema_of(stmts).tables, other)
        }),
{
    let all = stmts.push(Statement::CreateTable(c));
    assert(all.drop_last() =~= stmts);
    lemma_schema_of_unique(stmts);
    let m = schema_of(stmts);
    let key = spec_lowercase(c.table_name@);
    lemma_insert(m.tables, key, created_table(c.columns@, c.table_options@, c.doc));
    lemma_insert(m.original_names, key, c.table_name@);
}

/// DROP TABLE removes the table, whatever the case of the name it is
/// dropped by; dropping a table that does not exist changes nothing, and
/// every other table is as it was.
pub proof fn law_drop_table_removes(stmts: Seq<Statement>, d: crate::ast::DropTableStmt, other: Seq<char>)
    ensures
        ({
            let after = schema_of(stmts.push(Statement::DropTable(d)));
            let key = spec_lowercase(d.table_name@);
            &&& lookup(after.tables, key) is None
            &&& lookup(after.original_names, key) is None
            &&& other != key ==> lookup(after.tables, other) == lookup(schema_of(stmts).tables, other)
        }),
{
    let all = stmts.push(Statement::DropTable(d));
    assert(all.drop_last() =~= stmts);
    lemma_schema_of_unique(stmts);
    let m = schema_of(stmts);
    let key = spec_lowercase(d.table_name@);
    lemma_remove(m.tables, key);
    lemma_remove(m.original_names, key);
}

/// Statements that neither create nor drop a table leave the tables as
/// they were.
pub proof fn law_other_statements_keep_tables(stmts: Seq<Statement>, s: Statement)
    requires
        !(s is CreateTable || s is CreateVirtualTable || s is DropTable),
    ensures
        schema_of(stmts.push(s)).tables == schema_of(stmts).tables,
{
    assert(stmts.push(s).drop_last() =~= stmts);
}

/// The column name an expression stands for: a bare or qualified column.
pub open spec fn column_name_of(e: Expr) -> Option<Seq<char>> {
    match e {
        Expr::Ident(name, _, _) => Some(name@),
        Expr::Column { column, .. } => Some(column@),
        _ => None,
    }
}

/// The column name an expression stands for: a bare or qualified column.
pub fn extract_column_name(expr: &Expr) -> (r: Option<String>)
    ensures
        match r {
            Some(n) => column_name_of(*expr) == Some(n@),
            None => column_name_of(*expr) is None,
        },
{
    match expr {
        Expr::Ident(name, _, _) => Some(name.clone()),
        Expr::Column { column, .. } => Some(column.clone()),
        _ => None,
    }
}

/// The column names a view's SELECT gives: each alias, or else the column
/// a bare column expression names; `*`, `t.*` and other expressions give none.
pub open spec fn view_columns(cols: Seq<ResultColumn>) -> Seq<Seq<char>>
    decreases cols.len(),
{
    if cols.len() == 0 {
        seq![]
    } else {
        let rest = view_columns(cols.drop_last());
        match cols.last() {
            ResultColumn::Expr { expr, alias, .. } => match alias {
                Some(a) => rest.push(a@),
                None => match column_name_of(expr) {
                    Some(n) => rest.push(n),
                    None => rest,
                },
            },
            _ => rest,
        }
    }
}

/// Infers the column names of a view from its SELECT columns.
pub fn infer_columns_from_select(cols: &Vec<ResultColumn>) -> (r: Vec<String>)
    ensures
        texts(r@) == view_columns(cols@),
{
    let mut r: Vec<String> = Vec::new();
    let mut i: usize = 0;
    while i < cols.len()
        invariant
            i <= cols.len(),
            texts(r@) == view_columns(cols@.subrange(0, i as int)),
        decreases cols.len() - i,
    {
        let ghost before = r@;
        match &cols[i] {
            ResultColumn::Expr { expr, alias, .. } => {
                match alias {
                    Some(a) => r.push(a.clone()),
                    None => match extract_column_name(expr) {
                        Some(n) => r.push(n),
                        None => {}
                    },
                }
            }
            _ => {}
        }
        proof {
            let sub = cols@.subrange(0, i + 1);
            assert(sub.drop_last() =~= cols@.subrange(0, i as int));
            assert(sub.last() == cols@[i as int]);
            if r@.len() > before.len() {
                assert(texts(r@) =~= texts(before).push(r@.last()@));
            } else {
                assert(r@ == before);
            }
        }
        i = i + 1;
    }
    assert(cols@.subrange(0, cols.len() as int) =~= cols@);
    r
}

/// The column names of an index: each indexed column that names a column.
pub open spec fn index_columns(cols: Seq<IndexedColumn>) -> Seq<Seq<char>>
    decreases cols.len(),
{
    if cols.len() == 0 {
        seq![]
    } else {
        let rest = index_columns(cols.drop_last());
        match column_name_of(cols.last().column) {
            Some(n) => rest.push(n),
            None => rest,
        }
    }
}

/// The registered columns of a CREATE TABLE: the lowercased set, the
/// original names, and the docs, each column counted once, at its first
/// appearance (case-insensitively).
pub open spec fn created_columns(cols: Seq<ColumnDef>)
    -> (Seq<(Seq<char>, ())>, Seq<Seq<char>>, Seq<(Seq<char>, DocModel)>)
    decreases cols.len(),
{
    if cols.len() == 0 {
        (seq![], seq![], seq![])
    } else {
        let (set, orig, docs) = created_columns(cols.drop_last());
        let c = cols.last();
        let l = spec_lowercase(c.name@);
        if has_key(set, l) {
            (set, orig, docs)
        } else {
            (
                seq_insert(set, l, ()),
                orig.push(c.name@),
                match c.doc {
                    Some(d) => seq_insert(docs, l, d@),
                    None => docs,
                },
            )
        }
    }
}

/// The table a CREATE TABLE registers.
pub open spec fn created_table(columns: Seq<ColumnDef>, options: Seq<TableOption>, doc: Option<DocComment>) -> TableModel {
    let (set, orig, docs) = created_columns(columns);
    TableModel {
        columns: set,
        original_columns: orig,
        without_rowid: options.contains(TableOption::WithoutRowid),
        doc: opt_doc(doc),
        column_docs: docs,
    }
}

/// The schema after one statement: CREATE statements register (replacing
/// any of the same lowercased name), DROP statements unregister, others
/// change nothing.
pub open spec fn schema_step(m: SchemaModel, stmt: Statement) -> SchemaModel {
    match stmt {
        Statement::CreateTable(c) => {
            let key = spec_lowercase(c.table_name@);
            SchemaModel {
                tables: seq_insert(m.tables, key, created_table(c.columns@, c.table_options@, c.doc)),
                original_names: seq_insert(m.original_names, key, c.table_name@),
                ..m
            }
        },
        Statement::CreateIndex(c) => SchemaModel {
            indexes: seq_insert(m.indexes, spec_lowercase(c.index_name@), IndexModel {
                name: c.index_name@,
                table_name: c.table_name@,
                columns: index_columns(c.columns@),
                is_unique: c.unique,
            }),
            ..m
        },
        Statement::CreateView(c) => SchemaModel {
            views: seq_insert(m.views, spec_lowercase(c.view_name@), ViewModel {
                name: c.view_name@,
                columns: match c.columns {
                    Some(cols) => texts(cols@),
                    None => view_columns(c.select.columns@),
                },
            }),
            ..m
        },
        Statement::CreateTrigger(c) => SchemaModel {
            triggers: seq_insert(m.triggers, spec_lowercase(c.trigger_name@), TriggerModel {
                name: c.trigger_name@,
                table_name: c.table_name@,
                event: match c.event {
                    TriggerEvent::Insert => TriggerEventType::Insert,
                    TriggerEvent::Update { .. } => TriggerEventType::Update,
                    TriggerEvent::Delete => TriggerEventType::Delete,
                },
            }),
            ..m
        },
        Statement::CreateVirtualTable(c) => {
            let key = spec_lowercase(c.table_name@);
            SchemaModel {
                tables: seq_insert(m.tables, key, opaque_table()),
                original_names: seq_insert(m.original_names, key, c.table_name@),
                ..m
            }
        },
        Statement::DropTable(d) => {
            let key = spec_lowercase(d.table_name@);
            SchemaModel {
                tables: seq_remove(m.tables, key),
                original_names: seq_remove(m.original_names, key),
                ..m
            }
        },
        Statement::DropIndex(d) => SchemaModel {
            indexes: seq_remove(m.indexes, spec_lowercase(d.index_name@)),
            ..m
        },
        Statement::DropView(d) => SchemaModel {
            views: seq_remove(m.views, spec_lowercase(d.view_name@)),
            ..m
        },
        Statement::DropTrigger(d) => SchemaModel {
            triggers: seq_remove(m.triggers, spec_lowercase(d.trigger_name@)),
            ..m
        },
        _ => m,
    }
}

/// The schema a sequence of statements defines, applying them in order to
/// the empty schema.
pub open spec fn schema_of(stmts: Seq<Statement>) -> SchemaModel
    decreases stmts.len(),
{
    if stmts.len() == 0 {
        empty_model()
    } else {
        schema_step(schema_of(stmts.drop_last()), stmts.last())
    }
}

/// Whether the options hold WITHOUT ROWID.
pub fn has_without_rowid(options: &Vec<TableOption>) -> (r: bool)
    ensures
        r == options@.contains(TableOption::WithoutRowid),
{
    let mut i: usize = 0;
    while i < options.len()
        invariant
            i <= options.len(),
            forall|j: int| 0 <= j < i ==> options@[j] != TableOption::WithoutRowid,
        decreases options.len() - i,
    {
        match options[i] {
            TableOption::WithoutRowid => {
                assert(options@[i as int] == TableOption::WithoutRowid);
                return true;
            }
            _ => {}
        }
        i = i + 1;
    }
    false
}

/// The table info of a CREATE TABLE.
pub fn created_table_info(columns: &Vec<ColumnDef>, options: &Vec<TableOption>, doc: &Option<DocComment>) -> (r: TableInfo)
    ensures
        r@ == created_table(columns@, options@, *doc),
{
    let mut set: StrMap<()> = StrMap::new();
    let mut orig: Vec<String> = Vec::new();
    let mut docs: StrMap<DocComment> = StrMap::new();
    let mut i: usize = 0;
    while i < columns.len()
        invariant
            i <= columns.len(),
            (set@, texts(orig@), docs@) == created_columns(columns@.subrange(0, i as int)),
        decreases columns.len() - i,
    {
        let col = &columns[i];
        let l = to_lower(col.name.as_str());
        let ghost before_orig = orig@;
        proof {
            let sub = columns@.subrange(0, i + 1);
            assert(sub.drop_last() =~= columns@.subrange(0, i as int));
            assert(sub.last() == columns@[i as int]);
        }
        if !set.contains_key(l.as_str()) {
            set.insert(l.clone(), ());
            orig.push(col.name.clone());
            assert(texts(orig@) =~= texts(before_orig).push(col.name@));
            match &col.doc {
                Some(d) => {
                    docs.insert(l, d.duplicate());
                }
                None => {}
            }
        }
        i = i + 1;
    }
    assert(columns@.subrange(0, columns.len() as int) =~= columns@);
    TableInfo {
        columns: set,
        original_columns: orig,
        without_rowid: has_without_rowid(options),
        doc: copy_opt_doc(doc),
        column_docs: docs,
    }
}

/// The column names of an index definition.
pub fn index_column_names(cols: &Vec<IndexedColumn>) -> (r: Vec<String>)
    ensures
        texts(r@) == index_columns(cols@),
{
    let mut r: Vec<String> = Vec::new();
    let mut i: usize = 0;
    while i < cols.len()
        invariant
            i <= cols.len(),
            texts(r@) == index_columns(cols@.subrange(0, i as int)),
        decreases cols.len() - i,
    {
        let ghost before = r@;
        match extract_column_name(&cols[i].column) {
            Some(n) => {
                r.push(n);
                assert(texts(r@) =~= texts(before).push(r@.last()@));
            }
            None => {}
        }
        proof {
            let sub = cols@.subrange(0, i + 1);
            assert(sub.drop_last() =~= cols@.subrange(0, i as int));
            assert(sub.last() == cols@[i as int]);
        }
        i = i + 1;
    }
    assert(cols@.subrange(0, cols.len() as int) =~= cols@);
    r
}

/// Builds the schema a program defines from its DDL statements, in order.
pub fn build_schema(program: &Program) -> (r: Schema)
    ensures
        r@ == schema_of(program.statements@),
{
    let mut schema = Schema::new();
    let stmts = &program.statements;
    let mut i: usize = 0;
    while i < stmts.len()
        invariant
            i <= stmts.len(),
            schema@ == schema_of(stmts@.subrange(0, i as int)),
        decreases stmts.len() - i,
    {
        proof {
            let sub = stmts@.subrange(0, i + 1);
            assert(sub.drop_last() =~= stmts@.subrange(0, i as int));
            assert(sub.last() == stmts@[i as int]);
        }
        match &stmts[i] {
            Statement::CreateTable(create) => {
                let key = to_lower(create.table_name.as_str());
                let info = created_table_info(&create.columns, &create.table_options, &create.doc);
                schema.tables.insert(key.clone(), info);
                schema.original_names.insert(key, create.table_name.clone());
            }
            Statement::CreateIndex(create) => {
                let key = to_lower(create.index_name.as_str());
                let columns = index_column_names(&create.columns);
                schema.indexes.insert(key, IndexInfo {
                    name: create.index_name.clone(),
                    table_name: create.table_name.clone(),
                    columns,
                    is_unique: create.unique,
                });
            }
            Statement::CreateView(create) => {
                let key = to_lower(create.view_name.as_str());
                let columns = match &create.columns {
                    Some(cols) => copy_strings(cols),
                    None => infer_columns_from_select(&create.select.columns),
                };
                schema.views.insert(key, ViewInfo { name: create.view_name.clone(), columns });
            }
            Statement::CreateTrigger(create) => {
                let key = to_lower(create.trigger_name.as_str());
                let event = match &create.event {
                    TriggerEvent::Insert => TriggerEventType::Insert,
                    TriggerEvent::Update { .. } => TriggerEventType::Update,
                    TriggerEvent::Delete => TriggerEventType::Delete,
                };
                schema.triggers.insert(key, TriggerInfo {
                    name: create.trigger_name.clone(),
                    table_name: create.table_name.clone(),
                    event,
                });
            }
            Statement::CreateVirtualTable(create) => {
                let key = to_lower(create.table_name.as_str());
                let info = opaque_table_info();
                schema.tables.insert(key.clone(), info);
                schema.original_names.insert(key, create.table_name.clone());
            }
            Statement::DropTable(drop) => {
                let key = to_lower(drop.table_name.as_str());
                schema.tables.remove(key.as_str());
                schema.original_names.remove(key.as_str());
            }
            Statement::DropIndex(drop) => {
                let key = to_lower(drop.index_name.as_str());
                schema.indexes.remove(key.as_str());
            }
            Statement::DropView(drop) => {
                let key = to_lower(drop.view_name.as_str());
                schema.views.remove(key.as_str());
            }
            Statement::DropTrigger(drop) => {
                let key = to_lower(drop.trigger_name.as_str());
                schema.triggers.remove(key.as_str());
            }
            _ => {}
        }
        i = i + 1;
    }
    assert(stmts@.subrange(0, stmts.len() as int) =~= stmts@);
    schema
}

/// A table whose columns are unknown: no columns, WITHOUT ROWID, no docs.
pub fn opaque_table_info() -> (r: TableInfo)
    ensures
        r@ == opaque_table(),
{
    let r = TableInfo {
        columns: StrMap::new(),
        original_columns: Vec::new(),
        without_rowid: true,
        doc: None,
        column_docs: StrMap::new(),
    };
    assert(texts(r.original_columns@) =~= Seq::<Seq<char>>::empty());
    r
}

// ---------------------------------------------------------------------
// Table names and tables
// ---------------------------------------------------------------------

/// The table names and the tables are registered under the same keys.
pub open spec fn names_match(m: SchemaModel) -> bool {
    forall|k: Seq<char>| #[trigger] has_key(m.tables, k) == has_key(m.original_names, k)
}

proof fn lemma_has_key_of_lookup<V>(s: Seq<(Seq<char>, V)>, k: Seq<char>)
    ensures
        has_key(s, k) == lookup(s, k) is Some,
{
}

/// Table names and tables stay in one-to-one correspondence: the empty
/// schema has neither; adding a table (`add_table`, `add_table_with_doc`,
/// CREATE TABLE) registers both under its key, dropping one unregisters
/// both, and merging overrides both; each key then has exactly one name.
pub proof fn law_table_names_match_tables(m: SchemaModel, o: SchemaModel, key: Seq<char>, name: Seq<char>, t: TableModel)
    requires
        registries_unique(m),
        registries_unique(o),
    ensures
        names_match(empty_model()),
        names_match(m) ==> names_match(
            SchemaModel {
                tables: seq_insert(m.tables, key, t),
                original_names: seq_insert(m.original_names, key, name),
                ..m
            },
        ),
        names_match(m) ==> names_match(
            SchemaModel { tables: seq_remove(m.tables, key), original_names: seq_remove(m.original_names, key), ..m },
        ),
        names_match(m) && names_match(o) ==> names_match(
            SchemaModel {
                tables: seq_override(m.tables, o.tables),
                original_names: seq_override(m.original_names, o.original_names),
                ..m
            },
        ),
        names_match(m) ==> forall|k: Seq<char>|
            #[trigger] has_key(m.tables, k) ==> exists|i: int|
                0 <= i < m.original_names.len() && m.original_names[i].0 == k && forall|j: int|
                    0 <= j < m.original_names.len() && m.original_names[j].0 == k ==> j == i,
{
    if names_match(m) {
        let ti = seq_insert(m.tables, key, t);
        let ni = seq_insert(m.original_names, key, name);
        lemma_insert(m.tables, key, t);
        lemma_insert(m.original_names, key, name);
        assert forall|k: Seq<char>| #[trigger] has_key(ti, k) == has_key(ni, k) by {
            lemma_has_key_of_lookup(ti, k);
            lemma_has_key_of_lookup(ni, k);
            lemma_has_key_of_lookup(m.tables, k);
            lemma_has_key_of_lookup(m.original_names, k);
            assert(has_key(m.tables, k) == has_key(m.original_names, k));
        }
        let tr = seq_remove(m.tables, key);
        let nr = seq_remove(m.original_names, key);
        lemma_remove(m.tables, key);
        lemma_remove(m.original_names, key);
        assert forall|k: Seq<char>| #[trigger] has_key(tr, k) == has_key(nr, k) by {
            lemma_has_key_of_lookup(tr, k);
            lemma_has_key_of_lookup(nr, k);
            lemma_has_key_of_lookup(m.tables, k);
            lemma_has_key_of_lookup(m.original_names, k);
            assert(has_key(m.tables, k) == has_key(m.original_names, k));
        }
        if names_match(o) {
            let to = seq_override(m.tables, o.tables);
            let no = seq_override(m.original_names, o.original_names);
            assert forall|k: Seq<char>| #[trigger] has_key(to, k) == has_key(no, k) by {
                lemma_override(m.tables, o.tables, k);
                lemma_override(m.original_names, o.original_names, k);
                lemma_has_key_of_lookup(to, k);
                lemma_has_key_of_lookup(no, k);
                lemma_has_key_of_lookup(m.tables, k);
                lemma_has_key_of_lookup(m.original_names, k);
                lemma_has_key_of_lookup(o.tables, k);
                lemma_has_key_of_lookup(o.original_names, k);
                assert(has_key(m.tables, k) == has_key(m.original_names, k));
                assert(has_key(o.tables, k) == has_key(o.original_names, k));
            }
        }
        assert forall|k: Seq<char>| #[trigger] has_key(m.tables, k) implies exists|i: int|
            0 <= i < m.original_names.len() && m.original_names[i].0 == k && forall|j: int|
                0 <= j < m.original_names.len() && m.original_names[j].0 == k ==> j == i by {
            assert(has_key(m.original_names, k));
            let i = key_pos(m.original_names, k);
            assert(0 <= i < m.original_names.len() && m.original_names[i].0 == k);
        }
    }
}

/// The schema a program defines has a name for each of its tables and a
/// table for each of its names.
pub proof fn law_schema_of_names_match(stmts: Seq<Statement>)
    ensures
        names_match(schema_of(stmts)),
    decreases stmts.len(),
{
    if stmts.len() == 0 {
        assert(names_match(empty_model())) by {
            law_table_names_match_tables(empty_model(), empty_model(), seq![], seq![], opaque_table());
        }
    } else {
        let m = schema_of(stmts.drop_last());
        law_schema_of_names_match(stmts.drop_last());
        lemma_schema_of_unique(stmts.drop_last());
        lemma_nargs_unique(stmts.drop_last());
        match stmts.last() {
            Statement::CreateTable(c) => {
                law_table_names_match_tables(m, m, spec_lowercase(c.table_name@), c.table_name@,
                    created_table(c.columns@, c.table_options@, c.doc));
            },
            Statement::CreateVirtualTable(c) => {
                law_table_names_match_tables(m, m, spec_lowercase(c.table_name@), c.table_name@, opaque_table());
            },
            Statement::DropTable(d) => {
                law_table_names_match_tables(m, m, spec_lowercase(d.table_name@), seq![], opaque_table());
            },
            _ => {},
        }
    }
}

/// The argument counts of a program's schema hold each name once.
proof fn lemma_nargs_unique(stmts: Seq<Statement>)
    ensures
        unique_keys(schema_of(stmts).function_nargs),
    decreases stmts.len(),
{
    if stmts.len() > 0 {
        lemma_nargs_unique(stmts.drop_last());
    }
}

/// Adding a table under a name that lowercases like an earlier one
/// replaces the whole entry: the table and the name are the later ones,
/// each registered once, and nothing else changes.
pub proof fn law_readd_table_replaces(m: SchemaModel, n1: Seq<char>, t1: TableModel, n2: Seq<char>, t2: TableModel)
    requires
        registries_unique(m),
        spec_lowercase(n1) == spec_lowercase(n2),
    ensures
        ({
            let k = spec_lowercase(n2);
            let tables = seq_insert(seq_insert(m.tables, spec_lowercase(n1), t1), k, t2);
            let names = seq_insert(seq_insert(m.original_names, spec_lowercase(n1), n1), k, n2);
            &&& lookup(tables, k) == Some(t2)
            &&& lookup(names, k) == Some(n2)
            &&& unique_keys(tables)
            &&& unique_keys(names)
            &&& forall|k2: Seq<char>| k2 != k ==> lookup(tables, k2) == lookup(m.tables, k2) && lookup(names, k2)
                == lookup(m.original_names, k2)
        }),
{
    let k = spec_lowercase(n2);
    lemma_insert(m.tables, k, t1);
    lemma_insert(seq_insert(m.tables, k, t1), k, t2);
    lemma_insert(m.original_names, k, n1);
    lemma_insert(seq_insert(m.original_names, k, n1), k, n2);
}

} // verus!
