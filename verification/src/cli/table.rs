//! Rendering a result set as a box-drawn text table for documentation.

use vstd::prelude::*;
use crate::ast::texts;
use crate::text::{push_char, push_str};
use vstd::string::StringSliceAdditionalSpecFns;

verus! {

/// `n` copies of `c`.
pub open spec fn repeat(c: char, n: int) -> Seq<char> {
    Seq::new(n as nat, |_i: int| c)
}

/// The cells of each row as character sequences.
pub open spec fn rows_view(rows: Seq<Vec<String>>) -> Seq<Seq<Seq<char>>> {
    Seq::new(rows.len(), |r: int| texts(rows[r]@))
}

/// The width of column `i`: the widest of its header and of the cells in
/// that column of the rows that reach it.
pub open spec fn col_width(header: int, row_widths: Seq<Seq<int>>, i: int) -> int
    decreases row_widths.len(),
{
    if row_widths.len() == 0 {
        header
    } else {
        let w = col_width(header, row_widths.drop_last(), i);
        let last = row_widths.last();
        if i < last.len() && last[i] > w {
            last[i]
        } else {
            w
        }
    }
}

/// The widths of all columns.
pub open spec fn col_widths(header_widths: Seq<int>, row_widths: Seq<Seq<int>>) -> Seq<int> {
    Seq::new(header_widths.len(), |i: int| col_width(header_widths[i], row_widths, i))
}

/// The inside of a horizontal border: a run of `─` two longer than each
/// column, with `tee` between columns.
pub open spec fn border_body(widths: Seq<int>, tee: char) -> Seq<char>
    decreases widths.len(),
{
    if widths.len() == 0 {
        Seq::empty()
    } else {
        let before = border_body(widths.drop_last(), tee);
        (if widths.len() > 1 {
            before.push(tee)
        } else {
            before
        }) + repeat('─', widths.last() + 2)
    }
}

/// A horizontal border line.
pub open spec fn border_line(widths: Seq<int>, left: char, tee: char, right: char) -> Seq<char> {
    seq![left] + border_body(widths, tee) + seq![right, '\n']
}

/// The inside of a row: each cell between spaces, padded to its column's
/// width while there is one, with `│` between the cells of columns.
pub open spec fn row_body(cells: Seq<Seq<char>>, cell_widths: Seq<int>, widths: Seq<int>) -> Seq<char>
    decreases cells.len(),
{
    if cells.len() == 0 {
        Seq::empty()
    } else {
        let i = cells.len() - 1;
        row_body(cells.drop_last(), cell_widths, widths) + seq![' '] + cells[i] + (if i < widths.len() {
            repeat(' ', widths[i] - cell_widths[i])
        } else {
            Seq::empty()
        }) + seq![' '] + (if i < widths.len() - 1 {
            seq!['│']
        } else {
            Seq::empty()
        })
    }
}

/// A row line.
pub open spec fn row_line(cells: Seq<Seq<char>>, cell_widths: Seq<int>, widths: Seq<int>) -> Seq<char> {
    seq!['│'] + row_body(cells, cell_widths, widths) + seq!['│', '\n']
}

/// The lines of the data rows.
pub open spec fn rows_text(rows: Seq<Seq<Seq<char>>>, row_widths: Seq<Seq<int>>, widths: Seq<int>) -> Seq<char>
    decreases rows.len(),
{
    if rows.len() == 0 {
        Seq::empty()
    } else {
        let i = rows.len() - 1;
        rows_text(rows.drop_last(), row_widths, widths) + row_line(rows[i], row_widths[i], widths)
    }
}

/// The table: nothing without columns; else a top border, the header row,
/// a separator, the data rows and a bottom border.
pub open spec fn table_text(
    columns: Seq<Seq<char>>,
    header_widths: Seq<int>,
    rows: Seq<Seq<Seq<char>>>,
    row_widths: Seq<Seq<int>>,
) -> Seq<char> {
    if columns.len() == 0 {
        Seq::empty()
    } else {
        let widths = col_widths(header_widths, row_widths);
        border_line(widths, '┌', '┬', '┐') + row_line(columns, header_widths, widths) + border_line(
            widths,
            '├',
            '┼',
            '┤',
        ) + rows_text(rows, row_widths, widths) + border_line(widths, '└', '┴', '┘')
    }
}

proof fn lemma_row_body_len(cells: Seq<Seq<char>>, cw: Seq<int>, widths: Seq<int>, tee: char, k: int)
    requires
        cells.len() == widths.len() == cw.len(),
        0 <= k <= widths.len(),
        forall|i: int| 0 <= i < cells.len() ==> cw[i] == (#[trigger] cells[i]).len() && cw[i] <= widths[i],
    ensures
        row_body(cells.take(k), cw, widths).len() == border_body(widths.take(k), tee).len() + if 0 < k < widths.len() {
            1int
        } else {
            0int
        },
    decreases k,
{
    if k > 0 {
        lemma_row_body_len(cells, cw, widths, tee, k - 1);
        assert(cells.take(k).drop_last() =~= cells.take(k - 1));
        assert(widths.take(k).drop_last() =~= widths.take(k - 1));
        assert(cells.take(k)[k - 1] == cells[k - 1]);
    }
}

/// The rows line up: a row with one cell per column, each cell as wide as
/// its text, is exactly as long as the borders, whatever the widths of the
/// columns (each at least as wide as its cell).
pub proof fn law_rows_line_up(cells: Seq<Seq<char>>, cell_widths: Seq<int>, widths: Seq<int>, left: char, tee: char, right: char)
    requires
        cells.len() == widths.len() == cell_widths.len(),
        forall|i: int|
            0 <= i < cells.len() ==> cell_widths[i] == (#[trigger] cells[i]).len() && cell_widths[i] <= widths[i],
    ensures
        row_line(cells, cell_widths, widths).len() == border_line(widths, left, tee, right).len(),
{
    lemma_row_body_len(cells, cell_widths, widths, tee, widths.len() as int);
    assert(cells.take(cells.len() as int) =~= cells);
    assert(widths.take(widths.len() as int) =~= widths);
}

/// The widths of a row's cells as numbers.
pub open spec fn widths_view(w: Seq<usize>) -> Seq<int> {
    Seq::new(w.len(), |i: int| w[i] as int)
}

/// The widths of all rows' cells as numbers.
pub open spec fn row_widths_view(w: Seq<Vec<usize>>) -> Seq<Seq<int>> {
    Seq::new(w.len(), |r: int| widths_view(w[r]@))
}

/// Each row has one width per cell.
pub open spec fn widths_match(rows: Seq<Vec<String>>, widths: Seq<Vec<usize>>) -> bool {
    &&& rows.len() == widths.len()
    &&& forall|r: int| 0 <= r < rows.len() ==> (#[trigger] rows[r])@.len() == widths[r]@.len()
}

fn push_repeat(out: &mut String, c: char, n: usize)
    ensures
        final(out)@ == old(out)@ + repeat(c, n as int),
{
    let ghost start = out@;
    let mut k: usize = 0;
    while k < n
        invariant
            k <= n,
            out@ == start + repeat(c, k as int),
        decreases n - k,
    {
        push_char(out, c);
        k = k + 1;
        assert(out@ =~= start + repeat(c, k as int));
    }
}

fn push_border(out: &mut String, widths: &Vec<usize>, left: char, tee: char, right: char)
    ensures
        final(out)@ == old(out)@ + border_line(widths_view(widths@), left, tee, right),
{
    let ghost start = out@;
    let ghost w = widths_view(widths@);
    push_char(out, left);
    let mut i: usize = 0;
    while i < widths.len()
        invariant
            i <= widths.len(),
            w == widths_view(widths@),
            out@ == start.push(left) + border_body(w.take(i as int), tee),
        decreases widths.len() - i,
    {
        let ghost before = out@;
        assert(w.take(i + 1).drop_last() =~= w.take(i as int));
        if i > 0 {
            push_char(out, tee);
        }
        push_repeat(out, '─', widths[i]);
        push_repeat(out, '─', 2);
        assert(repeat('─', widths@[i as int] as int) + repeat('─', 2) =~= repeat('─', w.take(i + 1).last() + 2));
        i = i + 1;
        assert(out@ =~= start.push(left) + border_body(w.take(i as int), tee));
    }
    assert(w.take(widths.len() as int) =~= w);
    push_char(out, right);
    push_char(out, '\n');
    assert(out@ =~= start + border_line(w, left, tee, right));
}

/// A column is at least as wide as its header and as every cell of it.
pub proof fn lemma_col_width_bounds(header: int, row_widths: Seq<Seq<int>>, i: int)
    ensures
        col_width(header, row_widths, i) >= header,
        forall|r: int|
            0 <= r < row_widths.len() && i < (#[trigger] row_widths[r]).len() ==> col_width(header, row_widths, i)
                >= row_widths[r][i],
    decreases row_widths.len(),
{
    if row_widths.len() > 0 {
        lemma_col_width_bounds(header, row_widths.drop_last(), i);
        assert forall|r: int|
            0 <= r < row_widths.len() && i < (#[trigger] row_widths[r]).len() implies col_width(header, row_widths, i)
                >= row_widths[r][i] by {
            if r < row_widths.len() - 1 {
                assert(row_widths.drop_last()[r] == row_widths[r]);
            }
        }
    }
}

fn push_row(out: &mut String, cells: &Vec<String>, cell_widths: &Vec<usize>, widths: &Vec<usize>)
    requires
        cells@.len() == cell_widths@.len(),
        forall|i: int| 0 <= i < cells@.len() && i < widths@.len() ==> cell_widths@[i] <= widths@[i],
    ensures
        final(out)@ == old(out)@ + row_line(texts(cells@), widths_view(cell_widths@), widths_view(widths@)),
{
    let ghost start = out@;
    let ghost c = texts(cells@);
    let ghost cw = widths_view(cell_widths@);
    let ghost w = widths_view(widths@);
    push_char(out, '│');
    let mut i: usize = 0;
    while i < cells.len()
        invariant
            i <= cells@.len() == cell_widths@.len(),
            forall|j: int| 0 <= j < cells@.len() && j < widths@.len() ==> cell_widths@[j] <= widths@[j],
            c == texts(cells@),
            cw == widths_view(cell_widths@),
            w == widths_view(widths@),
            out@ == start.push('│') + row_body(c.take(i as int), cw, w),
        decreases cells.len() - i,
    {
        assert(c.take(i + 1).drop_last() =~= c.take(i as int));
        push_char(out, ' ');
        push_str(out, cells[i].as_str());
        if i < widths.len() {
            push_repeat(out, ' ', widths[i] - cell_widths[i]);
        }
        push_char(out, ' ');
        if i + 1 < widths.len() {
            push_char(out, '│');
        }
        i = i + 1;
        assert(out@ =~= start.push('│') + row_body(c.take(i as int), cw, w));
    }
    assert(c.take(cells.len() as int) =~= c);
    push_char(out, '│');
    push_char(out, '\n');
    assert(out@ =~= start + row_line(c, cw, w));
}

fn column_widths(header_widths: &Vec<usize>, row_widths: &Vec<Vec<usize>>) -> (r: Vec<usize>)
    ensures
        widths_view(r@) == col_widths(widths_view(header_widths@), row_widths_view(row_widths@)),
{
    let ghost hw = widths_view(header_widths@);
    let ghost rw = row_widths_view(row_widths@);
    let n = header_widths.len();
    let mut r: Vec<usize> = Vec::new();
    let mut i: usize = 0;
    while i < n
        invariant
            i <= n == header_widths@.len(),
            r@.len() == i,
            forall|j: int| 0 <= j < i ==> r@[j] == header_widths@[j],
        decreases n - i,
    {
        r.push(header_widths[i]);
        i = i + 1;
    }
    let mut k: usize = 0;
    while k < row_widths.len()
        invariant
            k <= row_widths@.len(),
            n == header_widths@.len(),
            r@.len() == n,
            hw == widths_view(header_widths@),
            rw == row_widths_view(row_widths@),
            forall|j: int| 0 <= j < n ==> r@[j] == col_width(hw[j], rw.take(k as int), j),
        decreases row_widths.len() - k,
    {
        let row = &row_widths[k];
        assert(rw.take(k + 1).drop_last() =~= rw.take(k as int));
        assert(rw.take(k + 1).last() == widths_view(row@));
        let mut j: usize = 0;
        while j < row.len()
            invariant
                j <= row@.len(),
                row == row_widths@[k as int],
                k < row_widths@.len(),
                n == header_widths@.len(),
                r@.len() == n,
                hw == widths_view(header_widths@),
                rw == row_widths_view(row_widths@),
                rw.take(k + 1).drop_last() == rw.take(k as int),
                rw.take(k + 1).last() == widths_view(row@),
                forall|m: int| 0 <= m < n && m < j ==> r@[m] == col_width(hw[m], rw.take(k + 1), m),
                forall|m: int| 0 <= m < n && m >= j ==> r@[m] == col_width(hw[m], rw.take(k as int), m),
            decreases row.len() - j,
        {
            if j < n && row[j] > r[j] {
                r.set(j, row[j]);
            }
            j = j + 1;
        }
        k = k + 1;
    }
    assert(rw.take(row_widths.len() as int) =~= rw);
    assert(widths_view(r@) =~= col_widths(hw, rw));
    r
}

/// Renders a result set as a box-drawn table, given the display width of
/// each header and of each cell. With no columns the table is empty.
pub fn render_table_widths(
    columns: &Vec<String>,
    header_widths: &Vec<usize>,
    rows: &Vec<Vec<String>>,
    row_widths: &Vec<Vec<usize>>,
) -> (r: String)
    requires
        header_widths@.len() == columns@.len(),
        widths_match(rows@, row_widths@),
    ensures
        r@ == table_text(texts(columns@), widths_view(header_widths@), rows_view(rows@), row_widths_view(row_widths@)),
{
    let mut out = String::new();
    if columns.len() == 0 {
        return out;
    }
    let ghost hw = widths_view(header_widths@);
    let ghost rw = row_widths_view(row_widths@);
    let ghost rv = rows_view(rows@);
    let widths = column_widths(header_widths, row_widths);
    let ghost w = widths_view(widths@);
    proof {
        assert(w.len() == widths@.len());
        assert(col_widths(hw, rw).len() == hw.len());
        assert(widths@.len() == columns@.len());
        assert forall|i: int| 0 <= i < columns@.len() implies header_widths@[i] <= widths@[i] by {
            lemma_col_width_bounds(hw[i], rw, i);
            assert(w[i] == widths@[i] as int);
            assert(w[i] == col_width(hw[i], rw, i));
            assert(hw[i] == header_widths@[i] as int);
        }
    }
    push_border(&mut out, &widths, '┌', '┬', '┐');
    push_row(&mut out, columns, header_widths, &widths);
    push_border(&mut out, &widths, '├', '┼', '┤');
    let ghost body = out@;
    let mut k: usize = 0;
    while k < rows.len()
        invariant
            k <= rows@.len() == row_widths@.len(),
            widths_match(rows@, row_widths@),
            widths@.len() == columns@.len(),
            hw == widths_view(header_widths@),
            rw == row_widths_view(row_widths@),
            rv == rows_view(rows@),
            w == widths_view(widths@),
            w == col_widths(hw, rw),
            out@ == body + rows_text(rv.take(k as int), rw, w),
        decreases rows.len() - k,
    {
        proof {
            assert forall|i: int| 0 <= i < rows@[k as int]@.len() && i < widths@.len() implies row_widths@[k as int]@[i]
                <= widths@[i] by {
                lemma_col_width_bounds(hw[i], rw, i);
                assert(rows@[k as int]@.len() == row_widths@[k as int]@.len());
                assert(rw[k as int] == widths_view(row_widths@[k as int]@));
                assert(rw[k as int][i] == row_widths@[k as int]@[i]);
                assert(w[i] == widths@[i] as int);
                assert(w[i] == col_width(hw[i], rw, i));
            }
        }
        assert(rv.take(k + 1).drop_last() =~= rv.take(k as int));
        push_row(&mut out, &rows[k], &row_widths[k], &widths);
        k = k + 1;
        assert(out@ =~= body + rows_text(rv.take(k as int), rw, w));
    }
    assert(rv.take(rows.len() as int) =~= rv);
    push_border(&mut out, &widths, '└', '┴', '┘');
    out
}

/// The length in bytes (UTF-8) of each text.
pub open spec fn byte_widths(cells: Seq<Seq<char>>) -> Seq<int> {
    Seq::new(cells.len(), |i: int| vstd::utf8::encode_utf8(cells[i]).len() as int)
}

/// The byte widths of every row's cells.
pub open spec fn rows_byte_widths(rows: Seq<Seq<Seq<char>>>) -> Seq<Seq<int>> {
    Seq::new(rows.len(), |k: int| byte_widths(rows[k]))
}

fn byte_widths_of(v: &Vec<String>) -> (r: Vec<usize>)
    ensures
        widths_view(r@) == byte_widths(texts(v@)),
        r@.len() == v@.len(),
{
    let mut r: Vec<usize> = Vec::new();
    let mut i: usize = 0;
    while i < v.len()
        invariant
            i <= v@.len(),
            r@.len() == i,
            forall|j: int| 0 <= j < i ==> r@[j] as int == vstd::utf8::encode_utf8(v@[j]@).len(),
        decreases v.len() - i,
    {
        r.push(v[i].as_str().as_bytes().len());
        i = i + 1;
    }
    assert(widths_view(r@) =~= byte_widths(texts(v@)));
    r
}

/// Renders a result set as a box-drawn table, each column as wide as its
/// longest header or cell counted in bytes. With no columns the table is
/// empty.
pub fn render_table(columns: &Vec<String>, rows: &Vec<Vec<String>>) -> (r: String)
    ensures
        r@ == table_text(
            texts(columns@),
            byte_widths(texts(columns@)),
            rows_view(rows@),
            rows_byte_widths(rows_view(rows@)),
        ),
{
    let header_widths = byte_widths_of(columns);
    let mut row_widths: Vec<Vec<usize>> = Vec::new();
    let mut k: usize = 0;
    while k < rows.len()
        invariant
            k <= rows@.len(),
            row_widths@.len() == k,
            forall|j: int| 0 <= j < k ==> (#[trigger] row_widths@[j])@.len() == rows@[j]@.len(),
            forall|j: int| 0 <= j < k ==> widths_view((#[trigger] row_widths@[j])@) == byte_widths(texts(rows@[j]@)),
        decreases rows.len() - k,
    {
        let w = byte_widths_of(&rows[k]);
        row_widths.push(w);
        k = k + 1;
    }
    assert(row_widths_view(row_widths@) =~= rows_byte_widths(rows_view(rows@)));
    render_table_widths(columns, &header_widths, rows, &row_widths)
}

} // verus!
