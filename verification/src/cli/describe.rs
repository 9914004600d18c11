//! The `.describe` text of a table: a header line, a footer under the
//! sample rows, and the Columns / Foreign keys / Indexes / DDL sections.

use vstd::prelude::*;
use crate::ast::texts;
use crate::text::{chars_of, push_char, push_str, string_from_chars, sub_chars, trim_end_ws, u64_text, i64_text, nat_digits, int_text, str_eq};
use crate::cli::html::{ascii_ci_eq, eq_ignore_ascii_case};
use crate::cli::inline::{lines_of, prefixed, push_prefixed};
use crate::cli::table::repeat;

verus! {

/// A column of a described table.
#[derive(Debug)]
pub struct ColumnDesc {
    pub name: String,
    pub declared_type: String,
    /// The type affinity SQLite gives the declared type.
    pub affinity: String,
    /// The column's position in the primary key, 0 when it is not part of it.
    pub pk: i64,
    pub not_null: bool,
    pub default: Option<String>,
    /// 0 for an ordinary column, 1 hidden, 2 generated virtual, 3 generated stored.
    pub hidden: i64,
}

/// A foreign key from `from_table(from_column)` to `to_table(to_column)`
/// (`to_column` is `None` for the primary key).
#[derive(Debug)]
pub struct ForeignKeyDesc {
    pub from_table: String,
    pub from_column: String,
    pub to_table: String,
    pub to_column: Option<String>,
    pub on_delete: String,
    pub on_update: String,
}

/// An index of a described table.
#[derive(Debug)]
pub struct IndexDesc {
    pub name: String,
    pub columns: Vec<String>,
    pub unique: bool,
    pub partial: bool,
    /// `c` for CREATE INDEX, `u` for a UNIQUE constraint, `pk` for the primary key.
    pub origin: String,
}

/// What `.describe` found out about a table or view.
#[derive(Debug)]
pub struct TableDescription {
    pub schema: String,
    pub name: String,
    /// What the object is (`table`, `view`, `virtual table`, ...).
    pub kind_label: String,
    /// The row count as shown (`1,234`, `100,000+`), `None` for views.
    pub row_count_label: Option<String>,
    /// The row count when it is known exactly.
    pub exact_row_count: Option<u64>,
    pub without_rowid: bool,
    pub strict: bool,
    pub columns: Vec<ColumnDesc>,
    pub foreign_keys_out: Vec<ForeignKeyDesc>,
    pub foreign_keys_in: Vec<ForeignKeyDesc>,
    pub indexes: Vec<IndexDesc>,
    pub ddl: Option<String>,
}

// ---------------------------------------------------------------------
// Header and footer
// ---------------------------------------------------------------------

/// The header line: `schema.name — kind · N rows · WITHOUT ROWID · STRICT`.
pub open spec fn header_text(d: TableDescription) -> Seq<char> {
    d.schema@ + "."@ + d.name@ + " — "@ + d.kind_label@ + match d.row_count_label {
        Some(c) => " · "@ + c@ + " rows"@,
        None => Seq::empty(),
    } + (if d.without_rowid {
        " · WITHOUT ROWID"@
    } else {
        Seq::empty()
    }) + (if d.strict {
        " · STRICT"@
    } else {
        Seq::empty()
    })
}

/// The footer under `shown` sample rows: `N rows shown` for views and for
/// tables whose sample showed every row, else `N of <count> rows`.
pub open spec fn footer_text(d: TableDescription, shown: nat) -> Seq<char> {
    match d.row_count_label {
        None => nat_digits(shown) + " rows shown"@,
        Some(label) => if (d.exact_row_count matches Some(n) && shown >= n) {
            nat_digits(shown) + " rows shown"@
        } else {
            nat_digits(shown) + " of "@ + label@ + " rows"@
        },
    }
}

/// The header line of a description.
pub fn describe_header_text(d: &TableDescription) -> (r: String)
    ensures
        r@ == header_text(*d),
{
    let mut s = d.schema.clone();
    push_str(&mut s, ".");
    push_str(&mut s, d.name.as_str());
    push_str(&mut s, " — ");
    push_str(&mut s, d.kind_label.as_str());
    if let Some(count) = &d.row_count_label {
        push_str(&mut s, " · ");
        push_str(&mut s, count.as_str());
        push_str(&mut s, " rows");
    }
    if d.without_rowid {
        push_str(&mut s, " · WITHOUT ROWID");
    }
    if d.strict {
        push_str(&mut s, " · STRICT");
    }
    assert(s@ =~= header_text(*d));
    s
}

/// The footer under the `shown` rows of the sample.
pub fn describe_footer_text(d: &TableDescription, shown: usize) -> (r: String)
    ensures
        r@ == footer_text(*d, shown as nat),
{
    let mut s = u64_text(shown as u64);
    match &d.row_count_label {
        None => push_str(&mut s, " rows shown"),
        Some(label) => {
            let all_shown = match d.exact_row_count {
                Some(n) => shown as u64 >= n,
                None => false,
            };
            if all_shown {
                push_str(&mut s, " rows shown");
            } else {
                push_str(&mut s, " of ");
                push_str(&mut s, label.as_str());
                push_str(&mut s, " rows");
            }
        },
    }
    assert(s@ =~= footer_text(*d, shown as nat));
    s
}

// ---------------------------------------------------------------------
// Text helpers
// ---------------------------------------------------------------------

/// `s` padded with spaces to `w` characters.
pub open spec fn pad_to(s: Seq<char>, w: int) -> Seq<char> {
    if s.len() < w {
        s + repeat(' ', w - s.len())
    } else {
        s
    }
}

/// The number of UTF-8 bytes of a text.
pub open spec fn byte_width(s: Seq<char>) -> int {
    vstd::utf8::encode_utf8(s).len() as int
}

/// The most bytes any of the texts takes (0 for none).
pub open spec fn widest(ts: Seq<Seq<char>>) -> int
    decreases ts.len(),
{
    if ts.len() == 0 {
        0
    } else {
        let w = widest(ts.drop_last());
        if byte_width(ts.last()) > w {
            byte_width(ts.last())
        } else {
            w
        }
    }
}

/// The texts with `sep` between them.
pub open spec fn joined(ts: Seq<Seq<char>>, sep: Seq<char>) -> Seq<char>
    decreases ts.len(),
{
    if ts.len() == 0 {
        Seq::empty()
    } else if ts.len() == 1 {
        ts[0]
    } else {
        joined(ts.drop_last(), sep) + sep + ts.last()
    }
}

/// Appends `s` padded with spaces to `w` characters.
fn push_padded(out: &mut String, s: &str, w: usize)
    ensures
        final(out)@ == old(out)@ + pad_to(s@, w as int),
{
    let ghost start = out@;
    push_str(out, s);
    let n = chars_of(s).len();
    let mut k = n;
    while k < w
        invariant
            n == s@.len(),
            n <= k,
            k <= w || k == n,
            out@ == start + s@ + repeat(' ', k - n),
        decreases w - k,
    {
        push_char(out, ' ');
        assert(repeat(' ', k + 1 - n) =~= repeat(' ', k - n).push(' '));
        k = k + 1;
    }
    if n < w {
        assert(out@ =~= start + pad_to(s@, w as int));
    } else {
        assert(repeat(' ', 0) =~= Seq::<char>::empty());
        assert(out@ =~= start + pad_to(s@, w as int));
    }
}

/// Appends the texts with `sep` between them.
fn push_joined(out: &mut String, parts: &Vec<String>, sep: &str)
    ensures
        final(out)@ == old(out)@ + joined(texts(parts@), sep@),
{
    let ghost start = out@;
    let mut i: usize = 0;
    while i < parts.len()
        invariant
            i <= parts@.len(),
            out@ == start + joined(texts(parts@.subrange(0, i as int)), sep@),
        decreases parts@.len() - i,
    {
        let ghost before = texts(parts@.subrange(0, i as int));
        if i > 0 {
            push_str(out, sep);
        }
        push_str(out, parts[i].as_str());
        proof {
            let t = texts(parts@.subrange(0, i + 1));
            assert(t.drop_last() =~= before);
            assert(t.last() == parts@[i as int]@);
            if i == 0 {
                assert(t.len() == 1);
            }
        }
        assert(out@ =~= start + joined(texts(parts@.subrange(0, i + 1)), sep@));
        i = i + 1;
    }
    assert(parts@.subrange(0, parts@.len() as int) =~= parts@);
}

/// Appends `line` without its trailing whitespace, then a newline.
fn push_trimmed_line(out: &mut String, line: &String)
    ensures
        final(out)@ == old(out)@ + trim_end_ws(line@) + seq!['\n'],
{
    let v = chars_of(line.as_str());
    let e = crate::cli::docs::trim_end_len(&v);
    let t = sub_chars(&v, 0, e);
    let ts = string_from_chars(&t);
    push_str(out, ts.as_str());
    push_char(out, '\n');
}

/// The most bytes a column name takes.
fn widest_column_name(cols: &Vec<ColumnDesc>) -> (r: usize)
    ensures
        r as int == widest(column_names(cols@)),
{
    let mut w: usize = 0;
    let mut i: usize = 0;
    while i < cols.len()
        invariant
            i <= cols@.len(),
            w as int == widest(column_names(cols@.subrange(0, i as int))),
        decreases cols@.len() - i,
    {
        let n = cols[i].name.as_str().as_bytes().len();
        proof {
            let ns = column_names(cols@.subrange(0, i + 1));
            assert(ns.drop_last() =~= column_names(cols@.subrange(0, i as int)));
            assert(ns.last() == cols@[i as int].name@);
        }
        if n > w {
            w = n;
        }
        i = i + 1;
    }
    assert(cols@.subrange(0, cols@.len() as int) =~= cols@);
    w
}

/// The most bytes an index name takes.
fn widest_index_name(idxs: &Vec<IndexDesc>) -> (r: usize)
    ensures
        r as int == widest(index_names(idxs@)),
{
    let mut w: usize = 0;
    let mut i: usize = 0;
    while i < idxs.len()
        invariant
            i <= idxs@.len(),
            w as int == widest(index_names(idxs@.subrange(0, i as int))),
        decreases idxs@.len() - i,
    {
        let n = idxs[i].name.as_str().as_bytes().len();
        proof {
            let ns = index_names(idxs@.subrange(0, i + 1));
            assert(ns.drop_last() =~= index_names(idxs@.subrange(0, i as int)));
            assert(ns.last() == idxs@[i as int].name@);
        }
        if n > w {
            w = n;
        }
        i = i + 1;
    }
    assert(idxs@.subrange(0, idxs@.len() as int) =~= idxs@);
    w
}

// ---------------------------------------------------------------------
// Columns
// ---------------------------------------------------------------------

/// The names of the columns.
pub open spec fn column_names(cols: Seq<ColumnDesc>) -> Seq<Seq<char>> {
    cols.map_values(|c: ColumnDesc| c.name@)
}

/// How many columns are part of the primary key.
pub open spec fn pk_count(cols: Seq<ColumnDesc>) -> int
    decreases cols.len(),
{
    if cols.len() == 0 {
        0
    } else {
        pk_count(cols.drop_last()) + if cols.last().pk > 0 {
            1int
        } else {
            0int
        }
    }
}

/// The declared type, followed by the affinity in parentheses when the
/// two differ (without regard to ASCII case).
pub open spec fn type_part(c: ColumnDesc) -> Seq<char> {
    if ascii_ci_eq(c.declared_type@, c.affinity@) {
        c.declared_type@
    } else {
        c.declared_type@ + " ("@ + c.affinity@ + ")"@
    }
}

/// The flags of a column: `PK` (numbered when the key has several
/// columns), `NOT NULL`, its default, and what kind of hidden or
/// generated column it is.
pub open spec fn column_flags(c: ColumnDesc, multi_pk: bool) -> Seq<Seq<char>> {
    (if c.pk > 0 {
        seq![if multi_pk { "PK"@ + int_text(c.pk as int) } else { "PK"@ }]
    } else {
        Seq::empty()
    }) + (if c.not_null {
        seq!["NOT NULL"@]
    } else {
        Seq::empty()
    }) + match c.default {
        Some(d) => seq!["default "@ + d@],
        None => Seq::empty(),
    } + (if c.hidden == 1 {
        seq!["hidden"@]
    } else if c.hidden == 2 {
        seq!["generated virtual"@]
    } else if c.hidden == 3 {
        seq!["generated stored"@]
    } else {
        Seq::empty()
    })
}

/// The line of a column, its name padded to `w`.
pub open spec fn column_line(c: ColumnDesc, w: int, multi_pk: bool) -> Seq<char> {
    trim_end_ws("  "@ + pad_to(c.name@, w) + "  "@ + type_part(c) + "  "@ + joined(column_flags(c, multi_pk), "  "@))
        + seq!['\n']
}

/// The lines of the columns.
pub open spec fn column_lines(cols: Seq<ColumnDesc>, w: int, multi_pk: bool) -> Seq<char>
    decreases cols.len(),
{
    if cols.len() == 0 {
        Seq::empty()
    } else {
        column_lines(cols.drop_last(), w, multi_pk) + column_line(cols.last(), w, multi_pk)
    }
}

/// The Columns section: empty when there are none.
pub open spec fn columns_section(cols: Seq<ColumnDesc>) -> Seq<char> {
    if cols.len() == 0 {
        Seq::empty()
    } else {
        "\nColumns\n"@ + column_lines(cols, widest(column_names(cols)), pk_count(cols) > 1)
    }
}

fn count_pk(cols: &Vec<ColumnDesc>) -> (r: usize)
    ensures
        r as int == pk_count(cols@),
{
    let mut n: usize = 0;
    let mut i: usize = 0;
    while i < cols.len()
        invariant
            i <= cols@.len(),
            n <= i,
            n as int == pk_count(cols@.subrange(0, i as int)),
        decreases cols@.len() - i,
    {
        assert(cols@.subrange(0, i + 1).drop_last() =~= cols@.subrange(0, i as int));
        if cols[i].pk > 0 {
            n = n + 1;
        }
        i = i + 1;
    }
    assert(cols@.subrange(0, cols@.len() as int) =~= cols@);
    n
}

fn column_flag_texts(c: &ColumnDesc, multi_pk: bool) -> (r: Vec<String>)
    ensures
        texts(r@) == column_flags(*c, multi_pk),
{
    let mut flags: Vec<String> = Vec::new();
    if c.pk > 0 {
        if multi_pk {
            let mut f = crate::text::string_of("PK");
            let n = i64_text(c.pk);
            push_str(&mut f, n.as_str());
            flags.push(f);
        } else {
            flags.push(crate::text::string_of("PK"));
        }
    }
    let ghost a = texts(flags@);
    if c.not_null {
        flags.push(crate::text::string_of("NOT NULL"));
    }
    let ghost b = texts(flags@);
    match &c.default {
        Some(d) => {
            let mut f = crate::text::string_of("default ");
            push_str(&mut f, d.as_str());
            flags.push(f);
        },
        None => {},
    }
    let ghost e = texts(flags@);
    if c.hidden == 1 {
        flags.push(crate::text::string_of("hidden"));
    } else if c.hidden == 2 {
        flags.push(crate::text::string_of("generated virtual"));
    } else if c.hidden == 3 {
        flags.push(crate::text::string_of("generated stored"));
    }
    assert(texts(flags@) =~= column_flags(*c, multi_pk));
    flags
}

fn push_column_line(out: &mut String, c: &ColumnDesc, w: usize, multi_pk: bool)
    ensures
        final(out)@ == old(out)@ + column_line(*c, w as int, multi_pk),
{
    let mut line = crate::text::string_of("  ");
    push_padded(&mut line, c.name.as_str(), w);
    push_str(&mut line, "  ");
    push_str(&mut line, c.declared_type.as_str());
    if !eq_ignore_ascii_case(c.declared_type.as_str(), c.affinity.as_str()) {
        push_str(&mut line, " (");
        push_str(&mut line, c.affinity.as_str());
        push_str(&mut line, ")");
    }
    push_str(&mut line, "  ");
    let flags = column_flag_texts(c, multi_pk);
    push_joined(&mut line, &flags, "  ");
    assert(line@ =~= "  "@ + pad_to(c.name@, w as int) + "  "@ + type_part(*c) + "  "@ + joined(
        column_flags(*c, multi_pk),
        "  "@,
    ));
    push_trimmed_line(out, &line);
}

fn push_columns_section(out: &mut String, cols: &Vec<ColumnDesc>)
    ensures
        final(out)@ == old(out)@ + columns_section(cols@),
{
    if cols.len() == 0 {
        assert(columns_section(cols@) =~= Seq::<char>::empty());
        return;
    }
    let ghost start = out@;
    push_str(out, "\nColumns\n");
    let w = widest_column_name(cols);
    let multi_pk = count_pk(cols) > 1;
    let mut i: usize = 0;
    while i < cols.len()
        invariant
            i <= cols@.len(),
            w as int == widest(column_names(cols@)),
            multi_pk == (pk_count(cols@) > 1),
            out@ == start + "\nColumns\n"@ + column_lines(cols@.subrange(0, i as int), w as int, multi_pk),
        decreases cols@.len() - i,
    {
        push_column_line(out, &cols[i], w, multi_pk);
        assert(cols@.subrange(0, i + 1).drop_last() =~= cols@.subrange(0, i as int));
        i = i + 1;
    }
    assert(cols@.subrange(0, cols@.len() as int) =~= cols@);
}

// ---------------------------------------------------------------------
// Foreign keys
// ---------------------------------------------------------------------

/// The referenced column, or `<pk>` for the primary key.
pub open spec fn target_column(c: Option<String>) -> Seq<char> {
    match c {
        Some(s) => s@,
        None => "<pk>"@,
    }
}

/// The line of a foreign key of the table: `→  col → schema.table(col)`,
/// with its ON DELETE and ON UPDATE actions unless they are `NO ACTION`.
pub open spec fn fk_out_line(schema: Seq<char>, fk: ForeignKeyDesc) -> Seq<char> {
    "  →  "@ + fk.from_column@ + " → "@ + schema + "."@ + fk.to_table@ + "("@ + target_column(fk.to_column) + ")"@
        + (if fk.on_delete@ != "NO ACTION"@ {
        "  ON DELETE "@ + fk.on_delete@
    } else {
        Seq::empty()
    }) + (if fk.on_update@ != "NO ACTION"@ {
        "  ON UPDATE "@ + fk.on_update@
    } else {
        Seq::empty()
    }) + seq!['\n']
}

/// The line of a foreign key pointing at the table: `←  table(col) → col`.
pub open spec fn fk_in_line(fk: ForeignKeyDesc) -> Seq<char> {
    "  ←  "@ + fk.from_table@ + "("@ + fk.from_column@ + ") → "@ + target_column(fk.to_column) + seq!['\n']
}

/// The lines of the foreign keys of the table.
pub open spec fn fk_out_lines(schema: Seq<char>, fks: Seq<ForeignKeyDesc>) -> Seq<char>
    decreases fks.len(),
{
    if fks.len() == 0 {
        Seq::empty()
    } else {
        fk_out_lines(schema, fks.drop_last()) + fk_out_line(schema, fks.last())
    }
}

/// The lines of the foreign keys pointing at the table.
pub open spec fn fk_in_lines(fks: Seq<ForeignKeyDesc>) -> Seq<char>
    decreases fks.len(),
{
    if fks.len() == 0 {
        Seq::empty()
    } else {
        fk_in_lines(fks.drop_last()) + fk_in_line(fks.last())
    }
}

/// The Foreign keys section, outgoing keys first: empty when there are none.
pub open spec fn fk_section(schema: Seq<char>, outs: Seq<ForeignKeyDesc>, ins: Seq<ForeignKeyDesc>) -> Seq<char> {
    if outs.len() == 0 && ins.len() == 0 {
        Seq::empty()
    } else {
        "\nForeign keys\n"@ + fk_out_lines(schema, outs) + fk_in_lines(ins)
    }
}

fn push_target_column(out: &mut String, c: &Option<String>)
    ensures
        final(out)@ == old(out)@ + target_column(*c),
{
    match c {
        Some(s) => push_str(out, s.as_str()),
        None => push_str(out, "<pk>"),
    }
}

fn push_fk_out_line(out: &mut String, schema: &String, fk: &ForeignKeyDesc)
    ensures
        final(out)@ == old(out)@ + fk_out_line(schema@, *fk),
{
    let ghost before = out@;
    push_str(out, "  →  ");
    push_str(out, fk.from_column.as_str());
    push_str(out, " → ");
    push_str(out, schema.as_str());
    push_str(out, ".");
    push_str(out, fk.to_table.as_str());
    push_str(out, "(");
    push_target_column(out, &fk.to_column);
    push_str(out, ")");
    let ghost head = out@;
    if !str_eq(fk.on_delete.as_str(), "NO ACTION") {
        push_str(out, "  ON DELETE ");
        push_str(out, fk.on_delete.as_str());
    }
    let ghost mid = out@;
    if !str_eq(fk.on_update.as_str(), "NO ACTION") {
        push_str(out, "  ON UPDATE ");
        push_str(out, fk.on_update.as_str());
    }
    push_char(out, '\n');
    assert(out@ =~= before + fk_out_line(schema@, *fk));
}

fn push_fk_section(out: &mut String, schema: &String, outs: &Vec<ForeignKeyDesc>, ins: &Vec<ForeignKeyDesc>)
    ensures
        final(out)@ == old(out)@ + fk_section(schema@, outs@, ins@),
{
    if outs.len() == 0 && ins.len() == 0 {
        assert(fk_section(schema@, outs@, ins@) =~= Seq::<char>::empty());
        return;
    }
    let ghost start = out@;
    push_str(out, "\nForeign keys\n");
    let mut i: usize = 0;
    while i < outs.len()
        invariant
            i <= outs@.len(),
            out@ == start + "\nForeign keys\n"@ + fk_out_lines(schema@, outs@.subrange(0, i as int)),
        decreases outs@.len() - i,
    {
        push_fk_out_line(out, schema, &outs[i]);
        assert(outs@.subrange(0, i + 1).drop_last() =~= outs@.subrange(0, i as int));
        i = i + 1;
    }
    assert(outs@.subrange(0, outs@.len() as int) =~= outs@);
    let ghost mid = out@;
    let mut j: usize = 0;
    while j < ins.len()
        invariant
            j <= ins@.len(),
            out@ == mid + fk_in_lines(ins@.subrange(0, j as int)),
        decreases ins@.len() - j,
    {
        let fk = &ins[j];
        let ghost before = out@;
        push_str(out, "  ←  ");
        push_str(out, fk.from_table.as_str());
        push_str(out, "(");
        push_str(out, fk.from_column.as_str());
        push_str(out, ") → ");
        push_target_column(out, &fk.to_column);
        push_char(out, '\n');
        assert(out@ =~= before + fk_in_line(*fk));
        assert(ins@.subrange(0, j + 1).drop_last() =~= ins@.subrange(0, j as int));
        j = j + 1;
    }
    assert(ins@.subrange(0, ins@.len() as int) =~= ins@);
    assert(out@ =~= start + fk_section(schema@, outs@, ins@));
}

// ---------------------------------------------------------------------
// Indexes
// ---------------------------------------------------------------------

/// The names of the indexes.
pub open spec fn index_names(idxs: Seq<IndexDesc>) -> Seq<Seq<char>> {
    idxs.map_values(|i: IndexDesc| i.name@)
}

/// The flags of an index: `unique`, `partial`, and `pk` or `autoindex`
/// for one that a PRIMARY KEY or UNIQUE constraint made.
pub open spec fn index_flags(i: IndexDesc) -> Seq<Seq<char>> {
    (if i.unique {
        seq!["unique"@]
    } else {
        Seq::empty()
    }) + (if i.partial {
        seq!["partial"@]
    } else {
        Seq::empty()
    }) + (if i.origin@ == "pk"@ {
        seq!["pk"@]
    } else if i.origin@ == "u"@ {
        seq!["autoindex"@]
    } else {
        Seq::empty()
    })
}

/// The line of an index, its name padded to `w`.
pub open spec fn index_line(i: IndexDesc, w: int) -> Seq<char> {
    trim_end_ws("  "@ + pad_to(i.name@, w) + "  ("@ + joined(texts(i.columns@), ", "@) + ")  "@ + joined(index_flags(i), ", "@))
        + seq!['\n']
}

/// The lines of the indexes.
pub open spec fn index_lines(idxs: Seq<IndexDesc>, w: int) -> Seq<char>
    decreases idxs.len(),
{
    if idxs.len() == 0 {
        Seq::empty()
    } else {
        index_lines(idxs.drop_last(), w) + index_line(idxs.last(), w)
    }
}

/// The Indexes section: empty when there are none.
pub open spec fn indexes_section(idxs: Seq<IndexDesc>) -> Seq<char> {
    if idxs.len() == 0 {
        Seq::empty()
    } else {
        "\nIndexes\n"@ + index_lines(idxs, widest(index_names(idxs)))
    }
}

fn index_flag_texts(i: &IndexDesc) -> (r: Vec<String>)
    ensures
        texts(r@) == index_flags(*i),
{
    let mut flags: Vec<String> = Vec::new();
    if i.unique {
        flags.push(crate::text::string_of("unique"));
    }
    let ghost a = texts(flags@);
    if i.partial {
        flags.push(crate::text::string_of("partial"));
    }
    let ghost b = texts(flags@);
    if str_eq(i.origin.as_str(), "pk") {
        flags.push(crate::text::string_of("pk"));
    } else if str_eq(i.origin.as_str(), "u") {
        flags.push(crate::text::string_of("autoindex"));
    }
    assert(texts(flags@) =~= index_flags(*i));
    flags
}

fn push_indexes_section(out: &mut String, idxs: &Vec<IndexDesc>)
    ensures
        final(out)@ == old(out)@ + indexes_section(idxs@),
{
    if idxs.len() == 0 {
        assert(indexes_section(idxs@) =~= Seq::<char>::empty());
        return;
    }
    let ghost start = out@;
    push_str(out, "\nIndexes\n");
    let w = widest_index_name(idxs);
    let mut k: usize = 0;
    while k < idxs.len()
        invariant
            k <= idxs@.len(),
            w as int == widest(index_names(idxs@)),
            out@ == start + "\nIndexes\n"@ + index_lines(idxs@.subrange(0, k as int), w as int),
        decreases idxs@.len() - k,
    {
        let idx = &idxs[k];
        let mut line = crate::text::string_of("  ");
        push_padded(&mut line, idx.name.as_str(), w);
        push_str(&mut line, "  (");
        push_joined(&mut line, &idx.columns, ", ");
        push_str(&mut line, ")  ");
        let flags = index_flag_texts(idx);
        push_joined(&mut line, &flags, ", ");
        assert(line@ =~= "  "@ + pad_to(idx.name@, w as int) + "  ("@ + joined(texts(idx.columns@), ", "@) + ")  "@
            + joined(index_flags(*idx), ", "@));
        push_trimmed_line(out, &line);
        assert(idxs@.subrange(0, k + 1).drop_last() =~= idxs@.subrange(0, k as int));
        k = k + 1;
    }
    assert(idxs@.subrange(0, idxs@.len() as int) =~= idxs@);
}

// ---------------------------------------------------------------------
// The whole description
// ---------------------------------------------------------------------

/// The DDL section: each line of the (highlighted) DDL indented by two
/// spaces; empty without DDL.
pub open spec fn ddl_section(ddl: Option<Seq<char>>) -> Seq<char> {
    match ddl {
        Some(t) => "\nDDL\n"@ + prefixed(lines_of(t), "  "@),
        None => Seq::empty(),
    }
}

/// The Columns, Foreign keys, Indexes and DDL sections, each after a blank
/// line and left out when empty.
pub open spec fn sections_text(d: TableDescription, ddl: Option<Seq<char>>) -> Seq<char> {
    columns_section(d.columns@) + fk_section(d.schema@, d.foreign_keys_out@, d.foreign_keys_in@)
        + indexes_section(d.indexes@) + ddl_section(ddl)
}

/// The sections of a description; `highlighted_ddl` is the description's
/// DDL as the caller highlights it (`None` when it has none).
pub fn describe_sections_text(d: &TableDescription, highlighted_ddl: &Option<String>) -> (r: String)
    ensures
        r@ == sections_text(
            *d,
            match highlighted_ddl {
                Some(t) => Some(t@),
                None => None,
            },
        ),
{
    let mut s = String::new();
    push_columns_section(&mut s, &d.columns);
    push_fk_section(&mut s, &d.schema, &d.foreign_keys_out, &d.foreign_keys_in);
    push_indexes_section(&mut s, &d.indexes);
    match highlighted_ddl {
        Some(ddl) => {
            push_str(&mut s, "\nDDL\n");
            push_prefixed(&mut s, ddl.as_str(), "  ");
        },
        None => {},
    }
    assert(s@ =~= sections_text(
        *d,
        match highlighted_ddl {
            Some(t) => Some(t@),
            None => None,
        },
    ));
    s
}

/// Whether a text ends in a newline.
pub open spec fn ends_in_newline(t: Seq<char>) -> bool {
    t.len() > 0 && t.last() == '\n'
}

fn last_is_newline(t: &str) -> (r: bool)
    ensures
        r == ends_in_newline(t@),
{
    let v = chars_of(t);
    v.len() > 0 && v[v.len() - 1] == '\n'
}

/// The sample as it stands in the description: the rendered rows ended by
/// a newline, or why they could not be rendered; and how many rows it shows.
pub open spec fn sample_part(sample: Result<(Seq<char>, nat), Seq<char>>) -> (Seq<char>, nat) {
    match sample {
        Ok((o, n)) => (if ends_in_newline(o) { o } else { o.push('\n') }, n),
        Err(e) => ("(failed to render sample: "@ + e + ")\n"@, 0),
    }
}

/// The whole `.describe` text: header, sample, footer, sections.
pub open spec fn describe_text(d: TableDescription, sample: Result<(Seq<char>, nat), Seq<char>>, ddl: Option<Seq<char>>) -> Seq<char> {
    header_text(d) + seq!['\n'] + sample_part(sample).0 + footer_text(d, sample_part(sample).1) + seq!['\n']
        + sections_text(d, ddl)
}

/// Renders a `.describe` result as psql-`\d`-style text: header, sample
/// rows, columns, foreign keys (out then in), indexes, DDL. `sample` is
/// the rendered sample with the number of rows it shows, or the reason it
/// could not be rendered; `highlighted_ddl` is the DDL as the caller
/// highlights it.
pub fn render_describe_text(d: &TableDescription, sample: Result<(String, usize), String>, highlighted_ddl: &Option<String>)
    -> (r: String)
    ensures
        r@ == describe_text(
            *d,
            match sample {
                Ok((o, n)) => Ok((o@, n as nat)),
                Err(e) => Err(e@),
            },
            match highlighted_ddl {
                Some(t) => Some(t@),
                None => None,
            },
        ),
{
    let mut s = describe_header_text(d);
    push_char(&mut s, '\n');
    let shown = match &sample {
        Ok((output, total_rows)) => {
            push_str(&mut s, output.as_str());
            if !last_is_newline(output.as_str()) {
                push_char(&mut s, '\n');
            }
            *total_rows
        },
        Err(e) => {
            push_str(&mut s, "(failed to render sample: ");
            push_str(&mut s, e.as_str());
            push_str(&mut s, ")\n");
            0
        },
    };
    let footer = describe_footer_text(d, shown);
    push_str(&mut s, footer.as_str());
    push_char(&mut s, '\n');
    let sections = describe_sections_text(d, highlighted_ddl);
    push_str(&mut s, sections.as_str());
    assert(s@ =~= describe_text(
        *d,
        match sample {
            Ok((o, n)) => Ok((o@, n as nat)),
            Err(e) => Err(e@),
        },
        match highlighted_ddl {
            Some(t) => Some(t@),
            None => None,
        },
    ));
    s
}

/// The plain-text mirror of a description: header, the plain sample (ended
/// by a newline when it is not empty), the footer, and the sections with
/// the DDL as it is.
pub open spec fn plain_text(d: TableDescription, sample_plain: Seq<char>, footer: Seq<char>) -> Seq<char> {
    header_text(d) + seq!['\n'] + sample_plain + (if sample_plain.len() > 0 && !ends_in_newline(sample_plain) {
        seq!['\n']
    } else {
        Seq::empty()
    }) + footer + seq!['\n'] + sections_text(
        d,
        match d.ddl {
            Some(t) => Some(t@),
            None => None,
        },
    )
}

/// The plain-text mirror of a description, given its plain sample and footer.
pub fn render_text(d: &TableDescription, sample_plain: &str, footer: &str) -> (r: String)
    ensures
        r@ == plain_text(*d, sample_plain@, footer@),
{
    let mut s = describe_header_text(d);
    push_char(&mut s, '\n');
    push_str(&mut s, sample_plain);
    if chars_of(sample_plain).len() > 0 && !last_is_newline(sample_plain) {
        push_char(&mut s, '\n');
    }
    push_str(&mut s, footer);
    push_char(&mut s, '\n');
    let sections = describe_sections_text(d, &d.ddl);
    push_str(&mut s, sections.as_str());
    assert(s@ =~= plain_text(*d, sample_plain@, footer@));
    s
}

} // verus!
