//! How results are shown: JSON or an aligned text table.
use vstd::prelude::*;

use crate::text::push_char;

verus! {

broadcast use vstd::string::group_string_axioms;

/// The two ways of showing a result.
#[derive(Clone, Copy, PartialEq, Eq, Structural)]
pub enum OutputMode {
    Table,
    Json,
}

impl OutputMode {
    /// `--json` selects JSON; otherwise results are shown as tables.
    pub fn from_json_flag(json: bool) -> (m: OutputMode)
        ensures
            m == (if json {
                OutputMode::Json
            } else {
                OutputMode::Table
            }),
    {
        if json {
            OutputMode::Json
        } else {
            OutputMode::Table
        }
    }
}

/// Results that can be shown as text.
pub trait TableOutput {
    /// The text shown for the result.
    spec fn table_text(&self) -> Seq<char>;

    /// Renders the text shown for the result.
    fn render_table(&self) -> (s: String)
        ensures
            s@ == self.table_text(),
    ;
}

/// The text shown for a result in table mode.
pub fn render<T: TableOutput>(value: &T) -> (s: String)
    ensures
        s@ == value.table_text(),
{
    value.render_table()
}

/// `n` spaces.
pub open spec fn spaces(n: nat) -> Seq<char> {
    Seq::new(n, |i: int| ' ')
}

/// A cell padded with spaces to `width` characters.
pub open spec fn padded(cell: Seq<char>, width: nat) -> Seq<char> {
    if cell.len() >= width {
        cell
    } else {
        cell + spaces((width - cell.len()) as nat)
    }
}

/// The greatest length of cell `c` over the rows (zero without rows).
pub open spec fn rows_width(rows: Seq<Seq<Seq<char>>>, c: int) -> nat
    decreases rows.len(),
{
    if rows.len() == 0 {
        0
    } else {
        let w = rows_width(rows.drop_last(), c);
        let l = rows.last()[c].len();
        if l > w {
            l
        } else {
            w
        }
    }
}

/// The width of column `c`: its header's length or its longest cell's.
pub open spec fn column_width(headers: Seq<Seq<char>>, rows: Seq<Seq<Seq<char>>>, c: int) -> nat {
    let r = rows_width(rows, c);
    if headers[c].len() > r {
        headers[c].len()
    } else {
        r
    }
}

/// The padded cells of a line before its last cell, each followed by two spaces.
pub open spec fn line_prefix(cells: Seq<Seq<char>>, widths: Seq<nat>) -> Seq<char>
    decreases cells.len(),
{
    if cells.len() == 0 {
        seq![]
    } else {
        line_prefix(cells.drop_last(), widths) + padded(cells.last(), widths[cells.len() - 1])
            + seq![' ', ' ']
    }
}

/// One table line: cells padded to their column widths and separated by two
/// spaces, the last cell unpadded, then a newline.
pub open spec fn line_text(cells: Seq<Seq<char>>, widths: Seq<nat>) -> Seq<char> {
    if cells.len() == 0 {
        seq!['\n']
    } else {
        line_prefix(cells.drop_last(), widths) + cells.last() + seq!['\n']
    }
}

/// The lines of all rows.
pub open spec fn rows_text(rows: Seq<Seq<Seq<char>>>, widths: Seq<nat>) -> Seq<char>
    decreases rows.len(),
{
    if rows.len() == 0 {
        seq![]
    } else {
        rows_text(rows.drop_last(), widths) + line_text(rows.last(), widths)
    }
}

/// The column widths of a table.
pub open spec fn table_widths(headers: Seq<Seq<char>>, rows: Seq<Seq<Seq<char>>>) -> Seq<nat> {
    Seq::new(headers.len(), |c: int| column_width(headers, rows, c))
}

/// A table: the header line, then one line per row, columns aligned.
pub open spec fn aligned_table(headers: Seq<Seq<char>>, rows: Seq<Seq<Seq<char>>>) -> Seq<char> {
    let widths = table_widths(headers, rows);
    line_text(headers, widths) + rows_text(rows, widths)
}

/// The cells of a row as character sequences.
pub open spec fn cells_view(r: Vec<String>) -> Seq<Seq<char>> {
    r@.map_values(|s: String| s@)
}

/// The cells of each row as character sequences.
pub open spec fn grid_view(rows: Seq<Vec<String>>) -> Seq<Seq<Seq<char>>> {
    rows.map_values(|r: Vec<String>| cells_view(r))
}

/// Header texts as character sequences.
pub open spec fn headers_view(headers: Seq<&str>) -> Seq<Seq<char>> {
    headers.map_values(|s: &str| s@)
}

/// Appends a cell padded to `width` characters.
fn push_padded(out: &mut String, cell: &str, width: usize)
    ensures
        final(out)@ == old(out)@ + padded(cell@, width as nat),
{
    out.append(cell);
    let len = cell.unicode_len();
    if len < width {
        let ghost before = out@;
        let mut k: usize = len;
        while k < width
            invariant
                len <= k <= width,
                out@ == before + spaces((k - len) as nat),
            decreases width - k,
        {
            push_char(out, ' ');
            assert(spaces((k + 1 - len) as nat) =~= spaces((k - len) as nat).push(' '));
            k = k + 1;
        }
    }
}

/// Appends one table line.
fn push_line(out: &mut String, cells: &[&str], widths: &[usize])
    requires
        cells@.len() == widths@.len(),
    ensures
        final(out)@ == old(out)@ + line_text(
            headers_view(cells@),
            widths@.map_values(|w: usize| w as nat),
        ),
{
    let ghost start = out@;
    let ghost cv = headers_view(cells@);
    let ghost wv = widths@.map_values(|w: usize| w as nat);
    let n = cells.len();
    if n == 0 {
        push_char(out, '\n');
        return;
    }
    let mut i: usize = 0;
    assert(cv.take(0) =~= Seq::<Seq<char>>::empty());
    while i + 1 < n
        invariant
            i + 1 <= n,
            n == cells@.len(),
            n == widths@.len(),
            cv == headers_view(cells@),
            wv == widths@.map_values(|w: usize| w as nat),
            out@ == start + line_prefix(cv.take(i as int), wv),
        decreases n - i,
    {
        push_padded(out, cells[i], widths[i]);
        out.append("  ");
        assert(cv.take(i + 1).drop_last() == cv.take(i as int));
        assert(cv[i as int] == cells@[i as int]@);
        assert("  "@ == seq![' ', ' ']) by {
            reveal_strlit("  ");
        }
        i = i + 1;
    }
    out.append(cells[n - 1]);
    push_char(out, '\n');
    assert(cv.drop_last() == cv.take(i as int));
}

/// Appends the lines of the rows.
fn push_rows(out: &mut String, rows: &[Vec<String>], widths: &[usize])
    requires
        forall|r: int| 0 <= r < rows@.len() ==> #[trigger] rows@[r]@.len() == widths@.len(),
    ensures
        final(out)@ == old(out)@ + rows_text(
            grid_view(rows@),
            widths@.map_values(|w: usize| w as nat),
        ),
{
    let ghost start = out@;
    let ghost g = grid_view(rows@);
    let ghost wv = widths@.map_values(|w: usize| w as nat);
    let mut r: usize = 0;
    assert(g.take(0) =~= Seq::<Seq<Seq<char>>>::empty());
    while r < rows.len()
        invariant
            r <= rows@.len(),
            forall|q: int| 0 <= q < rows@.len() ==> #[trigger] rows@[q]@.len() == widths@.len(),
            g == grid_view(rows@),
            wv == widths@.map_values(|w: usize| w as nat),
            out@ == start + rows_text(g.take(r as int), wv),
        decreases rows.len() - r,
    {
        let row = &rows[r];
        let mut cells: Vec<&str> = Vec::new();
        let mut c: usize = 0;
        while c < row.len()
            invariant
                c <= row@.len(),
                cells@.len() == c,
                headers_view(cells@) == cells_view(*row).take(c as int),
            decreases row.len() - c,
        {
            let ghost before = headers_view(cells@);
            let cell = row[c].as_str();
            cells.push(cell);
            assert(headers_view(cells@)[c as int] == cells_view(*row)[c as int]);
            assert(forall|k: int| 0 <= k < c ==> headers_view(cells@)[k] == before[k]);
            assert(headers_view(cells@) =~= cells_view(*row).take(c + 1));
            c = c + 1;
        }
        assert(cells_view(*row).take(row@.len() as int) =~= cells_view(*row));
        push_line(out, cells.as_slice(), widths);
        assert(g.take(r + 1).drop_last() == g.take(r as int));
        assert(g[r as int] == headers_view(cells@));
        r = r + 1;
    }
    assert(g.take(rows@.len() as int) == g);
}

/// The widths of the columns.
fn compute_widths(headers: &[&str], rows: &[Vec<String>]) -> (w: Vec<usize>)
    requires
        forall|r: int| 0 <= r < rows@.len() ==> #[trigger] rows@[r]@.len() == headers@.len(),
    ensures
        w@.len() == headers@.len(),
        w@.map_values(|x: usize| x as nat) == table_widths(headers_view(headers@), grid_view(rows@)),
{
    let ghost h = headers_view(headers@);
    let ghost g = grid_view(rows@);
    let mut widths: Vec<usize> = Vec::new();
    let mut c: usize = 0;
    while c < headers.len()
        invariant
            c <= headers@.len(),
            h == headers_view(headers@),
            g == grid_view(rows@),
            forall|r: int| 0 <= r < rows@.len() ==> #[trigger] rows@[r]@.len() == headers@.len(),
            widths@.len() == c,
            forall|k: int| 0 <= k < c ==> widths@[k] as nat == column_width(h, g, k),
        decreases headers.len() - c,
    {
        let mut w: usize = 0;
        let mut r: usize = 0;
        while r < rows.len()
            invariant
                r <= rows@.len(),
                c < headers@.len(),
                g == grid_view(rows@),
                forall|q: int| 0 <= q < rows@.len() ==> #[trigger] rows@[q]@.len() == headers@.len(),
                w as nat == rows_width(g.take(r as int), c as int),
            decreases rows.len() - r,
        {
            let l = rows[r][c].unicode_len();
            assert(g.take(r + 1).drop_last() == g.take(r as int));
            assert(g[r as int][c as int] == rows@[r as int]@[c as int]@);
            if l > w {
                w = l;
            }
            r = r + 1;
        }
        assert(g.take(rows@.len() as int) == g);
        let hl = headers[c].unicode_len();
        if hl > w {
            w = hl;
        }
        widths.push(w);
        c = c + 1;
    }
    assert(widths@.map_values(|x: usize| x as nat) =~= table_widths(h, g));
    widths
}

/// Renders headers and rows as a table whose columns line up (widths count characters).
pub fn render_aligned_table(headers: &[&str], rows: &[Vec<String>]) -> (s: String)
    requires
        forall|r: int| 0 <= r < rows@.len() ==> #[trigger] rows@[r]@.len() == headers@.len(),
    ensures
        s@ == aligned_table(headers_view(headers@), grid_view(rows@)),
{
    let widths = compute_widths(headers, rows);
    let mut s = String::new();
    push_line(&mut s, headers, widths.as_slice());
    push_rows(&mut s, rows, widths.as_slice());
    s
}

} // verus!
