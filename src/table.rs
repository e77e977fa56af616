//! Tables: every cell measured first, then each row padded to the widths
//! of its columns.

use vstd::prelude::*;
use crate::chars::{push_char, push_repeated, repeat};
use crate::escape::{cell_escaped, escape_table_cell};
use crate::serializer::{quote_prefix, Serializer};
use vstd::prelude::Ghost;

verus! {

/// How a table column is aligned.
#[derive(Debug, Clone, Copy, PartialEq, Eq, Structural)]
pub enum TableAlignment {
    /// No alignment marker.
    Unaligned,
    /// `:---`
    Left,
    /// `:---:`
    Center,
    /// `---:`
    Right,
}

/// The view of rows of cells.
pub open spec fn row_views(rows: Seq<Vec<String>>) -> Seq<Seq<Seq<char>>> {
    rows.map_values(|r: Vec<String>| cell_views(r@))
}

/// The view of one row of cells.
pub open spec fn cell_views(row: Seq<String>) -> Seq<Seq<char>> {
    row.map_values(|c: String| c@)
}

/// Every cell with its pipes escaped.
pub open spec fn escape_rows(rows: Seq<Seq<Seq<char>>>) -> Seq<Seq<Seq<char>>> {
    rows.map_values(|r: Seq<Seq<char>>| r.map_values(|c: Seq<char>| cell_escaped(c)))
}

/// The widest cell of column `j` among the first `n` rows (0 if none).
pub open spec fn column_max(cells: Seq<Seq<Seq<char>>>, j: int, n: int) -> nat
    decreases n,
{
    if n <= 0 {
        0
    } else {
        let a = column_max(cells, j, n - 1);
        let b = if 0 <= j < cells[n - 1].len() {
            cells[n - 1][j].len()
        } else {
            0
        };
        if a >= b {
            a
        } else {
            b
        }
    }
}

/// The width of column `j`: its widest cell, and at least 3, the room an
/// alignment marker needs.
pub open spec fn column_width(cells: Seq<Seq<Seq<char>>>, j: int) -> nat {
    let m = column_max(cells, j, cells.len() as int);
    if m >= 3 {
        m
    } else {
        3
    }
}

/// A cell padded with spaces to width `w`, then closed by ` |`.
pub open spec fn cell_text(cell: Seq<char>, w: nat) -> Seq<char> {
    let pad: nat = if cell.len() < w {
        (w - cell.len()) as nat
    } else {
        0
    };
    seq![' '] + cell + repeat(' ', pad) + seq![' ', '|']
}

/// The first `k` cells of `row`, each padded to its column's width.
pub open spec fn cells_text(cells: Seq<Seq<Seq<char>>>, row: Seq<Seq<char>>, k: int) -> Seq<char>
    decreases k,
{
    if k <= 0 {
        Seq::empty()
    } else {
        cells_text(cells, row, k - 1) + cell_text(row[k - 1], column_width(cells, k - 1))
    }
}

/// One row of the table.
pub open spec fn row_line(in_block_quote: bool, cells: Seq<Seq<Seq<char>>>, row: Seq<Seq<char>>) -> Seq<char> {
    quote_prefix(in_block_quote) + seq!['|'] + cells_text(cells, row, row.len() as int) + seq!['\n']
}

/// The delimiter cell of a column of width `w`.
pub open spec fn delimiter_cell(a: TableAlignment, w: nat) -> Seq<char> {
    match a {
        TableAlignment::Left => seq![':'] + repeat('-', (w - 1) as nat),
        TableAlignment::Right => repeat('-', (w - 1) as nat) + seq![':'],
        TableAlignment::Center => seq![':'] + repeat('-', (w - 2) as nat) + seq![':'],
        TableAlignment::Unaligned => repeat('-', w),
    }
}

/// The first `k` delimiter cells.
pub open spec fn delimiters_text(cells: Seq<Seq<Seq<char>>>, aligns: Seq<TableAlignment>, k: int) -> Seq<char>
    decreases k,
{
    if k <= 0 {
        Seq::empty()
    } else {
        delimiters_text(cells, aligns, k - 1) + seq![' '] + delimiter_cell(
            aligns[k - 1],
            column_width(cells, k - 1),
        ) + seq![' ', '|']
    }
}

/// The delimiter row, which carries the alignments.
pub open spec fn delimiter_line(
    in_block_quote: bool,
    cells: Seq<Seq<Seq<char>>>,
    aligns: Seq<TableAlignment>,
) -> Seq<char> {
    quote_prefix(in_block_quote) + seq!['|'] + delimiters_text(cells, aligns, aligns.len() as int)
        + seq!['\n']
}

/// The data rows among the first `k` rows (all but the header).
pub open spec fn data_lines(in_block_quote: bool, cells: Seq<Seq<Seq<char>>>, k: int) -> Seq<char>
    decreases k,
{
    if k <= 1 {
        Seq::empty()
    } else {
        data_lines(in_block_quote, cells, k - 1) + row_line(in_block_quote, cells, cells[k - 1])
    }
}

/// A table of escaped cells `cells`: the header row, the delimiter row,
/// then the data rows; nothing for a table without rows.
pub open spec fn table_text(
    in_block_quote: bool,
    cells: Seq<Seq<Seq<char>>>,
    aligns: Seq<TableAlignment>,
) -> Seq<char> {
    if cells.len() == 0 {
        Seq::empty()
    } else {
        row_line(in_block_quote, cells, cells[0]) + delimiter_line(in_block_quote, cells, aligns)
            + data_lines(in_block_quote, cells, cells.len() as int)
    }
}

/// A column is at least 3 wide, and at least as wide as each of its cells.
pub proof fn lemma_column_width_bounds(cells: Seq<Seq<Seq<char>>>, j: int)
    ensures
        column_width(cells, j) >= 3,
        forall|r: int|
            0 <= r < cells.len() && 0 <= j < cells[r].len() ==> (#[trigger] cells[r][j]).len()
                <= column_width(cells, j),
{
    assert forall|r: int| 0 <= r < cells.len() && 0 <= j < cells[r].len() implies (
    #[trigger] cells[r][j]).len() <= column_width(cells, j) by {
        lemma_column_max_bound(cells, j, r, cells.len() as int);
    }
}

proof fn lemma_column_max_bound(cells: Seq<Seq<Seq<char>>>, j: int, r: int, n: int)
    requires
        0 <= r < n <= cells.len(),
        0 <= j < cells[r].len(),
    ensures
        cells[r][j].len() <= column_max(cells, j, n),
    decreases n - r,
{
    if r < n - 1 {
        lemma_column_max_bound(cells, j, r, n - 1);
    }
}


/// Every cell of `rows` with its pipes escaped.
fn escape_cells(rows: &Vec<Vec<String>>) -> (r: Vec<Vec<String>>)
    ensures
        row_views(r@) == escape_rows(row_views(rows@)),
        r@.len() == rows@.len(),
        forall|i: int| 0 <= i < r@.len() ==> #[trigger] r@[i]@.len() == rows@[i]@.len(),
{
    let mut out: Vec<Vec<String>> = Vec::new();
    let mut i: usize = 0;
    while i < rows.len()
        invariant
            i <= rows@.len(),
            out@.len() == i,
            forall|r: int| 0 <= r < i ==> #[trigger] cell_views(out@[r]@) == escape_rows(row_views(rows@))[r],
            forall|r: int| 0 <= r < i ==> #[trigger] out@[r]@.len() == rows@[r]@.len(),
        decreases rows.len() - i,
    {
        let row = &rows[i];
        let mut escaped_row: Vec<String> = Vec::new();
        let mut j: usize = 0;
        while j < row.len()
            invariant
                j <= row@.len(),
                escaped_row@.len() == j,
                forall|c: int| 0 <= c < j ==> #[trigger] escaped_row@[c]@ == cell_escaped(row@[c]@),
            decreases row.len() - j,
        {
            let cell = escape_table_cell(row[j].as_str());
            escaped_row.push(cell);
            j += 1;
        }
        assert(cell_views(escaped_row@) =~= escape_rows(row_views(rows@))[i as int]);
        out.push(escaped_row);
        i += 1;
    }
    assert(row_views(out@) =~= escape_rows(row_views(rows@))) by {
        assert forall|r: int| 0 <= r < out@.len() implies #[trigger] row_views(out@)[r]
            == escape_rows(row_views(rows@))[r] by {
            assert(cell_views(out@[r]@) == escape_rows(row_views(rows@))[r]);
        }
    }
    out
}

/// The width of column `j` of the escaped cells `cells`.
fn measure_column(cells: &Vec<Vec<String>>, j: usize) -> (r: usize)
    ensures
        r == column_width(row_views(cells@), j as int),
{
    let ghost v = row_views(cells@);
    let mut m: usize = 0;
    let mut i: usize = 0;
    while i < cells.len()
        invariant
            i <= cells@.len(),
            v == row_views(cells@),
            m == column_max(v, j as int, i as int),
        decreases cells.len() - i,
    {
        if j < cells[i].len() {
            let len = cells[i][j].as_str().unicode_len();
            assert(v[i as int][j as int] == cells@[i as int]@[j as int]@);
            if len > m {
                m = len;
            }
        }
        i += 1;
    }
    if m >= 3 {
        m
    } else {
        3
    }
}

/// Writes one row, each cell padded to its column's width.
fn push_row(
    out: &mut String,
    in_block_quote: bool,
    row: &Vec<String>,
    widths: &Vec<usize>,
    Ghost(cells): Ghost<Seq<Seq<Seq<char>>>>,
)
    requires
        row@.len() <= widths@.len(),
        forall|j: int| 0 <= j < widths@.len() ==> #[trigger] widths@[j] == column_width(cells, j),
    ensures
        final(out)@ == old(out)@ + row_line(in_block_quote, cells, cell_views(row@)),
{
    let ghost rv = cell_views(row@);
    if in_block_quote {
        push_char(out, '>');
        push_char(out, ' ');
    }
    push_char(out, '|');
    let ghost start = out@;
    let mut j: usize = 0;
    while j < row.len()
        invariant
            j <= row@.len(),
            row@.len() <= widths@.len(),
            rv == cell_views(row@),
            forall|k: int| 0 <= k < widths@.len() ==> #[trigger] widths@[k] == column_width(cells, k),
            out@ == start + cells_text(cells, rv, j as int),
        decreases row.len() - j,
    {
        let ghost before = out@;
        let cell = row[j].as_str();
        let len = cell.unicode_len();
        let w = widths[j];
        push_char(out, ' ');
        out.append(cell);
        if len < w {
            push_repeated(out, ' ', w - len);
        } else {
            push_repeated(out, ' ', 0);
        }
        push_char(out, ' ');
        push_char(out, '|');
        assert(rv[j as int] == cell@);
        assert(out@ =~= before + cell_text(rv[j as int], column_width(cells, j as int)));
        j += 1;
    }
    push_char(out, '\n');
    assert(out@ =~= old(out)@ + row_line(in_block_quote, cells, rv));
}

/// Writes the delimiter row.
fn push_delimiters(
    out: &mut String,
    in_block_quote: bool,
    aligns: &Vec<TableAlignment>,
    widths: &Vec<usize>,
    Ghost(cells): Ghost<Seq<Seq<Seq<char>>>>,
)
    requires
        aligns@.len() == widths@.len(),
        forall|j: int| 0 <= j < widths@.len() ==> #[trigger] widths@[j] == column_width(cells, j),
    ensures
        final(out)@ == old(out)@ + delimiter_line(in_block_quote, cells, aligns@),
{
    if in_block_quote {
        push_char(out, '>');
        push_char(out, ' ');
    }
    push_char(out, '|');
    let ghost start = out@;
    let mut j: usize = 0;
    while j < aligns.len()
        invariant
            j <= aligns@.len(),
            aligns@.len() == widths@.len(),
            forall|k: int| 0 <= k < widths@.len() ==> #[trigger] widths@[k] == column_width(cells, k),
            out@ == start + delimiters_text(cells, aligns@, j as int),
        decreases aligns.len() - j,
    {
        let ghost before = out@;
        let w = widths[j];
        assert(w >= 3);
        push_char(out, ' ');
        let ghost mid = out@;
        match aligns[j] {
            TableAlignment::Left => {
                push_char(out, ':');
                push_repeated(out, '-', w - 1);
            },
            TableAlignment::Right => {
                push_repeated(out, '-', w - 1);
                push_char(out, ':');
            },
            TableAlignment::Center => {
                push_char(out, ':');
                push_repeated(out, '-', w - 2);
                push_char(out, ':');
            },
            TableAlignment::Unaligned => {
                push_repeated(out, '-', w);
            },
        }
        assert(out@ =~= mid + delimiter_cell(aligns@[j as int], w as nat));
        push_char(out, ' ');
        push_char(out, '|');
        assert(out@ =~= before + seq![' '] + delimiter_cell(aligns@[j as int], w as nat) + seq![' ', '|']);
        j += 1;
    }
    push_char(out, '\n');
    assert(out@ =~= old(out)@ + delimiter_line(in_block_quote, cells, aligns@));
}

impl Serializer {
    /// Renders a table whose cells hold the rendered inline content of
    /// each cell, row by row, the header row first. Each column is as wide
    /// as its widest escaped cell, and at least 3.
    pub fn serialize_table(&mut self, rows: &Vec<Vec<String>>, alignments: &Vec<TableAlignment>)
        requires
            forall|r: int| 0 <= r < rows@.len() ==> #[trigger] rows@[r]@.len() <= alignments@.len(),
        ensures
            final(self).output@ == old(self).output@ + table_text(
                old(self).in_block_quote,
                escape_rows(row_views(rows@)),
                alignments@,
            ),
            final(self).config == old(self).config,
            final(self).in_block_quote == old(self).in_block_quote,
    {
        let ghost cells = escape_rows(row_views(rows@));
        if rows.len() == 0 {
            assert(self.output@ =~= old(self).output@ + table_text(self.in_block_quote, cells, alignments@));
            return;
        }
        let esc = escape_cells(rows);
        let mut widths: Vec<usize> = Vec::new();
        let mut j: usize = 0;
        while j < alignments.len()
            invariant
                j <= alignments@.len(),
                widths@.len() == j,
                cells == row_views(esc@),
                forall|k: int| 0 <= k < j ==> #[trigger] widths@[k] == column_width(cells, k),
            decreases alignments.len() - j,
        {
            let w = measure_column(&esc, j);
            widths.push(w);
            j += 1;
        }
        let q = self.in_block_quote;
        let ghost start = self.output@;
        assert(row_views(esc@)[0] == cell_views(esc@[0]@));
        push_row(&mut self.output, q, &esc[0], &widths, Ghost(cells));
        push_delimiters(&mut self.output, q, alignments, &widths, Ghost(cells));
        let ghost head = self.output@;
        assert(head == start + row_line(q, cells, cells[0]) + delimiter_line(q, cells, alignments@));
        let mut i: usize = 1;
        while i < esc.len()
            invariant
                1 <= i <= esc@.len(),
                esc@.len() == rows@.len(),
                cells == row_views(esc@),
                forall|r: int| 0 <= r < esc@.len() ==> #[trigger] esc@[r]@.len() <= alignments@.len(),
                widths@.len() == alignments@.len(),
                forall|k: int| 0 <= k < widths@.len() ==> #[trigger] widths@[k] == column_width(cells, k),
                q == self.in_block_quote,
                self.config == old(self).config,
                self.in_block_quote == old(self).in_block_quote,
                self.output@ == head + data_lines(q, cells, i as int),
            decreases esc.len() - i,
        {
            assert(row_views(esc@)[i as int] == cell_views(esc@[i as int]@));
            push_row(&mut self.output, q, &esc[i], &widths, Ghost(cells));
            i += 1;
        }
        assert(self.output@ =~= start + table_text(q, cells, alignments@));
    }
}

} // verus!
