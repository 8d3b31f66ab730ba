//! The border/row renderer and the table pipeline: grid building, column
//! widths, border lines, padded rows, optional header emphasis and striping.
//!
//! Output structure: top border, header row, header/body separator, one line
//! per data row, bottom border. Rendering is a pure string transformation;
//! everything fallible happened during parsing.

use vstd::prelude::*;
use crate::format::{chars_to_string, format_cell, format_value, push_str_chars};
use crate::glyphs::{chars_of, table_chars, TableChars};
use crate::json::{CellModel, CellValue, ParsedRow, RowModel};
use crate::schema::{columns_of, extract_columns};
use crate::width::{checked_string_width, display_width, string_width};

verus! {

/// A width vector as mathematical integers.
pub open spec fn widths_ints(w: Seq<usize>) -> Seq<int> {
    Seq::new(w.len(), |i: int| w[i] as int)
}

/// The character `c`, `n` times.
pub open spec fn repeat_char(c: char, n: int) -> Seq<char>
    decreases n,
{
    if n <= 0 {
        Seq::empty()
    } else {
        repeat_char(c, n - 1).push(c)
    }
}

/// The inside of a border line over the first `k` columns: per column the
/// horizontal glyph repeated `width + 2` times, a tee or cross glyph between
/// adjacent columns.
pub open spec fn border_body(ws: Seq<int>, h: char, mid: char, k: int) -> Seq<char>
    decreases k,
{
    if k <= 0 {
        Seq::empty()
    } else {
        border_body(ws, h, mid, k - 1) + (if k == 1 {
            Seq::<char>::empty()
        } else {
            seq![mid]
        }) + repeat_char(h, ws[k - 1] + 2)
    }
}

/// A full border line: corner (or tee) glyphs at the ends, the border body
/// between them, closed by a line break.
pub open spec fn border_line(ws: Seq<int>, left: char, mid: char, right: char, h: char) -> Seq<
    char,
> {
    seq![left] + border_body(ws, h, mid, ws.len() as int) + seq![right] + seq!['\n']
}

/// The terminal escape sequence that opens dim styling.
pub open spec fn dim_on() -> Seq<char> {
    seq!['\u{1b}', '[', '2', 'm']
}

/// The terminal escape sequence that opens bold styling.
pub open spec fn bold_on() -> Seq<char> {
    seq!['\u{1b}', '[', '1', 'm']
}

/// The terminal escape sequence that resets styling.
pub open spec fn style_off() -> Seq<char> {
    seq!['\u{1b}', '[', '0', 'm']
}

/// One cell of a content row: a leading space, the cell text (wrapped in
/// bold escapes for an emphasised header, padding excluded), right padding
/// up to the column width, a trailing space.
pub open spec fn padded_cell(cell: Seq<char>, w: int, bold: bool) -> Seq<char> {
    seq![' '] + (if bold {
        bold_on() + cell + style_off()
    } else {
        cell
    }) + repeat_char(' ', w - display_width(cell)) + seq![' ']
}

/// The first `k` cells of a content row, each closed by the vertical glyph.
pub open spec fn row_body(cells: Seq<Seq<char>>, ws: Seq<int>, v: char, bold: bool, k: int) -> Seq<
    char,
>
    decreases k,
{
    if k <= 0 {
        Seq::empty()
    } else {
        row_body(cells, ws, v, bold, k - 1) + padded_cell(cells[k - 1], ws[k - 1], bold) + seq![v]
    }
}

/// A full content row line: the vertical glyph, the padded cells, a line
/// break; a dimmed row is wrapped whole in dim/reset escapes.
pub open spec fn row_line(cells: Seq<Seq<char>>, ws: Seq<int>, v: char, bold: bool, dim: bool) -> Seq<
    char,
> {
    (if dim {
        dim_on()
    } else {
        Seq::<char>::empty()
    }) + seq![v] + row_body(cells, ws, v, bold, cells.len() as int) + (if dim {
        style_off()
    } else {
        Seq::<char>::empty()
    }) + seq!['\n']
}

/// The header row is emphasised exactly when styling is enabled.
pub open spec fn bold_of(stripe: bool, row_index: Option<usize>) -> bool {
    stripe && row_index is None
}

/// A data row is dimmed exactly when striping is enabled and its zero-based
/// index is odd; the header is never dimmed.
pub open spec fn dim_of(stripe: bool, row_index: Option<usize>) -> bool {
    stripe && match row_index {
        Some(i) => i % 2 == 1,
        None => false,
    }
}

/// The first field with the given key, if any.
pub open spec fn field_lookup(fs: Seq<(Seq<char>, CellModel)>, k: Seq<char>) -> Option<CellModel>
    decreases fs.len(),
{
    if fs.len() == 0 {
        None
    } else if fs[0].0 == k {
        Some(fs[0].1)
    } else {
        field_lookup(fs.drop_first(), k)
    }
}

/// The display text of a row's cell under the given key: the formatted value
/// if the row has the key, the empty string otherwise.
pub open spec fn lookup_text(fs: Seq<(Seq<char>, CellModel)>, k: Seq<char>) -> Seq<char> {
    match field_lookup(fs, k) {
        Some(v) => format_cell(v),
        None => Seq::empty(),
    }
}

/// The formatted cells of one row: one per column for an object row, none
/// for any other row.
pub open spec fn row_cells(row: RowModel, cols: Seq<Seq<char>>) -> Seq<Seq<char>> {
    match row {
        RowModel::Fields(fs) => Seq::new(cols.len(), |i: int| lookup_text(fs, cols[i])),
        RowModel::Scalar => Seq::empty(),
    }
}

/// The formatted table: one cell row per input row.
pub open spec fn grid_of(rows: Seq<RowModel>, cols: Seq<Seq<char>>) -> Seq<Seq<Seq<char>>> {
    Seq::new(rows.len(), |r: int| row_cells(rows[r], cols))
}

/// The largest display width of column `i` over all cell rows.
pub open spec fn col_cells_max(grid: Seq<Seq<Seq<char>>>, i: int) -> int
    decreases grid.len(),
{
    if grid.len() == 0 {
        0
    } else {
        let rest = col_cells_max(grid.drop_last(), i);
        let row = grid.last();
        if 0 <= i < row.len() && display_width(row[i]) > rest {
            display_width(row[i]) as int
        } else {
            rest
        }
    }
}

/// Per column: the larger of the header label's display width and every
/// cell's display width in that column.
pub open spec fn widths_of(cols: Seq<Seq<char>>, grid: Seq<Seq<Seq<char>>>) -> Seq<int> {
    Seq::new(
        cols.len(),
        |i: int|
            {
                let hw = display_width(cols[i]) as int;
                let cw = col_cells_max(grid, i);
                if hw >= cw {
                    hw
                } else {
                    cw
                }
            },
    )
}

/// Whether a display string leaves room for a border segment in `usize`.
pub open spec fn fits(s: Seq<char>) -> bool {
    display_width(s) <= usize::MAX - 2
}

/// Whether every header label and every cell of the table leaves room for a
/// border segment in `usize`; only astronomically wide content fails this.
pub open spec fn table_fits(rows: Seq<RowModel>) -> bool {
    let cols = columns_of(rows);
    let grid = grid_of(rows, cols);
    &&& forall|i: int| 0 <= i < cols.len() ==> fits(cols[i])
    &&& forall|r: int, i: int|
        0 <= r < grid.len() && 0 <= i < grid[r].len() ==> fits(#[trigger] grid[r][i])
}

/// The first `k` data row lines.
pub open spec fn data_rows_text(
    grid: Seq<Seq<Seq<char>>>,
    ws: Seq<int>,
    v: char,
    stripe: bool,
    k: int,
) -> Seq<char>
    decreases k,
{
    if k <= 0 {
        Seq::empty()
    } else {
        data_rows_text(grid, ws, v, stripe, k - 1) + row_line(
            grid[k - 1],
            ws,
            v,
            false,
            stripe && (k - 1) % 2 == 1,
        )
    }
}

/// The whole rendered table: empty when there are no rows or no columns,
/// else top border, header row, separator, the data rows, bottom border.
pub open spec fn table_text(rows: Seq<RowModel>, ascii: bool, stripe: bool) -> Seq<char> {
    let cols = columns_of(rows);
    if rows.len() == 0 || cols.len() == 0 {
        Seq::empty()
    } else {
        let grid = grid_of(rows, cols);
        let ws = widths_of(cols, grid);
        let tc = chars_of(ascii);
        border_line(ws, tc.top_left, tc.top_tee, tc.top_right, tc.horizontal) + row_line(
            cols,
            ws,
            tc.vertical,
            stripe,
            false,
        ) + border_line(ws, tc.left_tee, tc.cross, tc.right_tee, tc.horizontal) + data_rows_text(
            grid,
            ws,
            tc.vertical,
            stripe,
            grid.len() as int,
        ) + border_line(ws, tc.bottom_left, tc.bottom_tee, tc.bottom_right, tc.horizontal)
    }
}

/// Every cell of a column is at most the column's cell maximum.
pub proof fn lemma_col_cells_max_ge(grid: Seq<Seq<Seq<char>>>, r: int, i: int)
    requires
        0 <= r < grid.len(),
        0 <= i < grid[r].len(),
    ensures
        display_width(grid[r][i]) <= col_cells_max(grid, i),
    decreases grid.len(),
{
    if r == grid.len() - 1 {
    } else {
        lemma_col_cells_max_ge(grid.drop_last(), r, i);
        assert(grid.drop_last()[r] == grid[r]);
    }
}

/// A bound on every cell of a column bounds the column's cell maximum.
pub proof fn lemma_col_cells_max_le(grid: Seq<Seq<Seq<char>>>, i: int, b: int)
    requires
        b >= 0,
        forall|r: int, j: int|
            0 <= r < grid.len() && 0 <= j < grid[r].len() ==> display_width(
                #[trigger] grid[r][j],
            ) <= b,
    ensures
        col_cells_max(grid, i) <= b,
    decreases grid.len(),
{
    if grid.len() > 0 {
        assert(forall|r: int, j: int|
            0 <= r < grid.drop_last().len() && 0 <= j < grid.drop_last()[r].len()
                ==> display_width(#[trigger] grid.drop_last()[r][j]) <= b) by {
            assert(forall|r: int| 0 <= r < grid.drop_last().len() ==> grid.drop_last()[r]
                == grid[r]);
        }
        lemma_col_cells_max_le(grid.drop_last(), i, b);
    }
}

/// Appends `c` to `out`, `n` times.
fn push_repeat(out: &mut Vec<char>, c: char, n: usize)
    ensures
        final(out)@ == old(out)@ + repeat_char(c, n as int),
{
    let mut i: usize = 0;
    while i < n
        invariant
            0 <= i <= n,
            out@ == old(out)@ + repeat_char(c, i as int),
        decreases n - i,
    {
        out.push(c);
        assert(out@ =~= old(out)@ + repeat_char(c, i + 1 as int));
        i = i + 1;
    }
}

fn push_border_body(out: &mut Vec<char>, widths: &Vec<usize>, h: char, mid: char)
    requires
        forall|i: int| 0 <= i < widths@.len() ==> #[trigger] widths@[i] + 2 <= usize::MAX,
    ensures
        final(out)@ == old(out)@ + border_body(
            widths_ints(widths@),
            h,
            mid,
            widths@.len() as int,
        ),
{
    let mut i: usize = 0;
    while i < widths.len()
        invariant
            0 <= i <= widths@.len(),
            forall|j: int| 0 <= j < widths@.len() ==> #[trigger] widths@[j] + 2 <= usize::MAX,
            out@ == old(out)@ + border_body(widths_ints(widths@), h, mid, i as int),
        decreases widths@.len() - i,
    {
        if i > 0 {
            out.push(mid);
        }
        push_repeat(out, h, widths[i] + 2);
        assert(out@ =~= old(out)@ + border_body(widths_ints(widths@), h, mid, i + 1 as int));
        i = i + 1;
    }
}

/// Renders the top border line: `W+2` horizontal glyphs per column of width
/// `W`, top tees between columns, top corners at the ends.
pub fn render_top_border(widths: &Vec<usize>, chars: &TableChars) -> (r: String)
    requires
        forall|i: int| 0 <= i < widths@.len() ==> #[trigger] widths@[i] + 2 <= usize::MAX,
    ensures
        r@ == border_line(
            widths_ints(widths@),
            chars.top_left,
            chars.top_tee,
            chars.top_right,
            chars.horizontal,
        ),
{
    let mut out: Vec<char> = Vec::new();
    out.push(chars.top_left);
    push_border_body(&mut out, widths, chars.horizontal, chars.top_tee);
    out.push(chars.top_right);
    out.push('\n');
    assert(out@ =~= border_line(
        widths_ints(widths@),
        chars.top_left,
        chars.top_tee,
        chars.top_right,
        chars.horizontal,
    ));
    chars_to_string(&out)
}

/// Renders the bottom border line, with bottom tees and corners.
pub fn render_bottom_border(widths: &Vec<usize>, chars: &TableChars) -> (r: String)
    requires
        forall|i: int| 0 <= i < widths@.len() ==> #[trigger] widths@[i] + 2 <= usize::MAX,
    ensures
        r@ == border_line(
            widths_ints(widths@),
            chars.bottom_left,
            chars.bottom_tee,
            chars.bottom_right,
            chars.horizontal,
        ),
{
    let mut out: Vec<char> = Vec::new();
    out.push(chars.bottom_left);
    push_border_body(&mut out, widths, chars.horizontal, chars.bottom_tee);
    out.push(chars.bottom_right);
    out.push('\n');
    assert(out@ =~= border_line(
        widths_ints(widths@),
        chars.bottom_left,
        chars.bottom_tee,
        chars.bottom_right,
        chars.horizontal,
    ));
    chars_to_string(&out)
}

/// Renders the header/body separator line, with crosses and side tees.
pub fn render_separator(widths: &Vec<usize>, chars: &TableChars) -> (r: String)
    requires
        forall|i: int| 0 <= i < widths@.len() ==> #[trigger] widths@[i] + 2 <= usize::MAX,
    ensures
        r@ == border_line(
            widths_ints(widths@),
            chars.left_tee,
            chars.cross,
            chars.right_tee,
            chars.horizontal,
        ),
{
    let mut out: Vec<char> = Vec::new();
    out.push(chars.left_tee);
    push_border_body(&mut out, widths, chars.horizontal, chars.cross);
    out.push(chars.right_tee);
    out.push('\n');
    assert(out@ =~= border_line(
        widths_ints(widths@),
        chars.left_tee,
        chars.cross,
        chars.right_tee,
        chars.horizontal,
    ));
    chars_to_string(&out)
}

fn push_padded_cell(out: &mut Vec<char>, cell: &String, w: usize, bold: bool)
    requires
        display_width(cell@) <= w,
    ensures
        final(out)@ == old(out)@ + padded_cell(cell@, w as int, bold),
{
    out.push(' ');
    if bold {
        out.push('\u{1b}');
        out.push('[');
        out.push('1');
        out.push('m');
    }
    push_str_chars(out, cell.as_str());
    if bold {
        out.push('\u{1b}');
        out.push('[');
        out.push('0');
        out.push('m');
    }
    let cw = string_width(cell.as_str());
    push_repeat(out, ' ', w - cw);
    out.push(' ');
    assert(out@ =~= old(out)@ + padded_cell(cell@, w as int, bold));
}

/// Renders one content row: the header when `row_index` is `None` (bold when
/// styling is on), else the data row of that zero-based index (dimmed when
/// striping is on and the index is odd).
pub fn render_row(
    cells: &Vec<String>,
    widths: &Vec<usize>,
    chars: &TableChars,
    stripe: bool,
    row_index: Option<usize>,
) -> (r: String)
    requires
        cells@.len() <= widths@.len(),
        forall|i: int|
            0 <= i < cells@.len() ==> display_width(#[trigger] cells.deep_view()[i])
                <= widths@[i],
    ensures
        r@ == row_line(
            cells.deep_view(),
            widths_ints(widths@),
            chars.vertical,
            bold_of(stripe, row_index),
            dim_of(stripe, row_index),
        ),
{
    let bold = stripe && row_index.is_none();
    let dim = stripe && (match row_index {
        Some(i) => i % 2 == 1,
        None => false,
    });
    let mut out: Vec<char> = Vec::new();
    if dim {
        out.push('\u{1b}');
        out.push('[');
        out.push('2');
        out.push('m');
    }
    out.push(chars.vertical);
    let ghost lead = (if dim {
        dim_on()
    } else {
        Seq::<char>::empty()
    }) + seq![chars.vertical];
    assert(out@ =~= lead);
    let mut i: usize = 0;
    while i < cells.len()
        invariant
            0 <= i <= cells@.len(),
            cells@.len() <= widths@.len(),
            forall|j: int|
                0 <= j < cells@.len() ==> display_width(#[trigger] cells.deep_view()[j])
                    <= widths@[j],
            out@ == lead + row_body(
                cells.deep_view(),
                widths_ints(widths@),
                chars.vertical,
                bold,
                i as int,
            ),
        decreases cells@.len() - i,
    {
        assert(cells.deep_view()[i as int] == cells@[i as int]@);
        push_padded_cell(&mut out, &cells[i], widths[i], bold);
        out.push(chars.vertical);
        assert(cells.deep_view()[i as int] == cells@[i as int]@);
        assert(out@ =~= lead + row_body(
            cells.deep_view(),
            widths_ints(widths@),
            chars.vertical,
            bold,
            i + 1 as int,
        ));
        i = i + 1;
    }
    if dim {
        out.push('\u{1b}');
        out.push('[');
        out.push('0');
        out.push('m');
    }
    out.push('\n');
    assert(out@ =~= row_line(
        cells.deep_view(),
        widths_ints(widths@),
        chars.vertical,
        bold_of(stripe, row_index),
        dim_of(stripe, row_index),
    ));
    chars_to_string(&out)
}

/// Looks a key up among a row's fields.
fn lookup_field<'a>(fields: &'a Vec<(String, CellValue)>, key: &String) -> (r: Option<
    &'a CellValue,
>)
    ensures
        match r {
            Some(v) => field_lookup(fields.deep_view(), key@) == Some(v@),
            None => field_lookup(fields.deep_view(), key@) is None,
        },
{
    let ghost fdv = fields.deep_view();
    proof {
        assert(fdv.skip(0) =~= fdv);
    }
    let mut j: usize = 0;
    while j < fields.len()
        invariant
            0 <= j <= fields@.len(),
            fdv == fields.deep_view(),
            field_lookup(fdv, key@) == field_lookup(fdv.skip(j as int), key@),
        decreases fields@.len() - j,
    {
        proof {
            assert(fdv.skip(j as int)[0] == fdv[j as int]);
            assert(fdv[j as int] == (fields@[j as int].0@, fields@[j as int].1@));
            assert(fdv.skip(j as int).drop_first() =~= fdv.skip(j + 1 as int));
        }
        if fields[j].0 == *key {
            return Some(&fields[j].1);
        }
        j = j + 1;
    }
    proof {
        assert(fdv.skip(fields@.len() as int) =~= Seq::<(Seq<char>, CellModel)>::empty());
    }
    None
}

/// Builds the formatted table: for each row one string per column, the
/// formatted value where the row has the key, the empty string where it does
/// not; a non-object row gets no cells.
pub fn build_grid(rows: &Vec<ParsedRow>, columns: &Vec<String>) -> (r: Vec<Vec<String>>)
    ensures
        r.deep_view() == grid_of(rows.deep_view(), columns.deep_view()),
{
    let ghost rowsm = rows.deep_view();
    let ghost colsm = columns.deep_view();
    let mut grid: Vec<Vec<String>> = Vec::new();
    let mut r0: usize = 0;
    while r0 < rows.len()
        invariant
            0 <= r0 <= rows@.len(),
            rowsm == rows.deep_view(),
            colsm == columns.deep_view(),
            grid@.len() == r0,
            forall|k: int| 0 <= k < r0 ==> grid.deep_view()[k] == row_cells(rowsm[k], colsm),
        decreases rows@.len() - r0,
    {
        match &rows[r0] {
            ParsedRow::Object(fields) => {
                let ghost fm = fields.deep_view();
                let mut cells: Vec<String> = Vec::new();
                let mut i: usize = 0;
                while i < columns.len()
                    invariant
                        0 <= i <= columns@.len(),
                        colsm == columns.deep_view(),
                        fm == fields.deep_view(),
                        cells@.len() == i,
                        forall|j: int|
                            0 <= j < i ==> cells.deep_view()[j] == lookup_text(fm, colsm[j]),
                    decreases columns@.len() - i,
                {
                    assert(colsm[i as int] == columns@[i as int]@);
                    let ghost pre_cells = cells.deep_view();
                    match lookup_field(fields, &columns[i]) {
                        Some(v) => {
                            cells.push(format_value(v));
                        },
                        None => {
                            cells.push(String::new());
                        },
                    }
                    proof {
                        assert(cells.deep_view() =~= pre_cells.push(
                            lookup_text(fm, colsm[i as int]),
                        ));
                    }
                    i = i + 1;
                }
                assert(cells.deep_view() =~= row_cells(rowsm[r0 as int], colsm));
                let ghost pre_grid = grid.deep_view();
                grid.push(cells);
                assert(grid.deep_view() =~= pre_grid.push(row_cells(rowsm[r0 as int], colsm)));
            },
            ParsedRow::Other => {
                let cells: Vec<String> = Vec::new();
                assert(cells.deep_view() =~= row_cells(rowsm[r0 as int], colsm));
                let ghost pre_grid = grid.deep_view();
                grid.push(cells);
                assert(grid.deep_view() =~= pre_grid.push(row_cells(rowsm[r0 as int], colsm)));
            },
        }
        r0 = r0 + 1;
    }
    assert(grid.deep_view() =~= grid_of(rowsm, colsm));
    grid
}

/// Computes the column widths of a formatted table: per column the larger of
/// the header label's display width and every cell's display width.
pub fn compute_widths(columns: &Vec<String>, table: &Vec<Vec<String>>) -> (r: Vec<usize>)
    requires
        forall|i: int|
            0 <= i < columns@.len() ==> display_width(#[trigger] columns.deep_view()[i])
                <= usize::MAX,
        forall|k: int, i: int|
            0 <= k < table@.len() && 0 <= i < table.deep_view()[k].len() ==> display_width(
                #[trigger] table.deep_view()[k][i],
            ) <= usize::MAX,
        forall|k: int| 0 <= k < table@.len() ==> #[trigger] table@[k]@.len() <= columns@.len(),
    ensures
        r@.len() == columns@.len(),
        widths_ints(r@) == widths_of(columns.deep_view(), table.deep_view()),
{
    let ghost colsm = columns.deep_view();
    let ghost gridm = table.deep_view();
    let mut w: Vec<usize> = Vec::new();
    let mut i: usize = 0;
    while i < columns.len()
        invariant
            0 <= i <= columns@.len(),
            colsm == columns.deep_view(),
            forall|j: int|
                0 <= j < columns@.len() ==> display_width(#[trigger] colsm[j]) <= usize::MAX,
            w@.len() == i,
            forall|j: int| 0 <= j < i ==> #[trigger] w@[j] == display_width(colsm[j]),
        decreases columns@.len() - i,
    {
        assert(colsm[i as int] == columns@[i as int]@);
        w.push(string_width(columns[i].as_str()));
        i = i + 1;
    }
    assert(widths_ints(w@) =~= widths_of(colsm, gridm.take(0)));
    let mut k: usize = 0;
    while k < table.len()
        invariant
            0 <= k <= table@.len(),
            colsm == columns.deep_view(),
            gridm == table.deep_view(),
            forall|k0: int, i0: int|
                0 <= k0 < gridm.len() && 0 <= i0 < gridm[k0].len() ==> display_width(
                    #[trigger] gridm[k0][i0],
                ) <= usize::MAX,
            forall|k0: int| 0 <= k0 < table@.len() ==> #[trigger] table@[k0]@.len()
                <= columns@.len(),
            w@.len() == columns@.len(),
            widths_ints(w@) == widths_of(colsm, gridm.take(k as int)),
        decreases table@.len() - k,
    {
        let ghost pre = w@;
        let ghost rowm = gridm[k as int];
        proof {
            assert forall|i0: int| 0 <= i0 < rowm.len() implies display_width(#[trigger] rowm[i0])
                <= usize::MAX by {
                assert(gridm[k as int][i0] == rowm[i0]);
            }
        }
        let mut i2: usize = 0;
        while i2 < table[k].len()
            invariant
                0 <= k < table@.len(),
                0 <= i2 <= table@[k as int]@.len(),
                gridm == table.deep_view(),
                rowm == gridm[k as int],
                rowm.len() == table@[k as int]@.len(),
                forall|j: int| 0 <= j < rowm.len() ==> rowm[j] == table@[k as int]@[j]@,
                forall|i0: int| 0 <= i0 < rowm.len() ==> display_width(#[trigger] rowm[i0])
                    <= usize::MAX,
                w@.len() == pre.len(),
                rowm.len() <= pre.len(),
                forall|j: int| i2 <= j < pre.len() ==> #[trigger] w@[j] == pre[j],
                forall|j: int|
                    0 <= j < i2 ==> #[trigger] w@[j] as int == (if display_width(rowm[j])
                        > pre[j] {
                        display_width(rowm[j]) as int
                    } else {
                        pre[j] as int
                    }),
            decreases table@[k as int]@.len() - i2,
        {
            assert(rowm[i2 as int] == table@[k as int]@[i2 as int]@);
            let cw = string_width(table[k][i2].as_str());
            if cw > w[i2] {
                w.set(i2, cw);
            }
            i2 = i2 + 1;
        }
        proof {
            assert(gridm.take(k + 1 as int).drop_last() =~= gridm.take(k as int));
            assert(gridm.take(k + 1 as int).last() == rowm);
            assert forall|j: int| 0 <= j < colsm.len() implies widths_ints(w@)[j] == widths_of(
                colsm,
                gridm.take(k + 1 as int),
            )[j] by {
                assert(widths_ints(pre)[j] == widths_of(colsm, gridm.take(k as int))[j]);
                assert(pre[j] as int == widths_of(colsm, gridm.take(k as int))[j]);
            }
            assert(widths_ints(w@) =~= widths_of(colsm, gridm.take(k + 1 as int)));
        }
        k = k + 1;
    }
    assert(gridm.take(table@.len() as int) =~= gridm);
    w
}

/// Renders the parsed rows as a table: empty output for no rows or no
/// columns, else the bordered, padded, optionally styled table, exactly
/// `table_text` of the rows.
pub fn render_table(rows: &Vec<ParsedRow>, ascii: bool, stripe: bool) -> (r: String)
    requires
        table_fits(rows.deep_view()),
    ensures
        r@ == table_text(rows.deep_view(), ascii, stripe),
{
    let ghost rowsm = rows.deep_view();
    if rows.len() == 0 {
        return String::new();
    }
    let columns = extract_columns(rows);
    let ghost colsm = columns.deep_view();
    if columns.len() == 0 {
        return String::new();
    }
    let grid = build_grid(rows, &columns);
    let ghost gridm = grid.deep_view();
    proof {
        assert(forall|k: int| 0 <= k < gridm.len() ==> gridm[k] == row_cells(rowsm[k], colsm));
        assert(forall|k: int| 0 <= k < grid@.len() ==> #[trigger] grid@[k]@.len()
            == gridm[k].len());
        assert(forall|k: int| 0 <= k < grid@.len() ==> #[trigger] grid@[k]@.len()
            <= columns@.len());
    }
    let widths = compute_widths(&columns, &grid);
    let ghost ws = widths_ints(widths@);
    proof {
        assert(forall|i: int| 0 <= i < colsm.len() ==> display_width(#[trigger] colsm[i])
            <= usize::MAX - 2);
        assert forall|i: int| 0 <= i < widths@.len() implies #[trigger] widths@[i] + 2
            <= usize::MAX by {
            lemma_col_cells_max_le(gridm, i, (usize::MAX - 2) as int);
            assert(ws[i] == widths_of(colsm, gridm)[i]);
        }
        assert forall|i: int| 0 <= i < colsm.len() implies display_width(#[trigger] colsm[i])
            <= widths@[i] by {
            assert(ws[i] == widths_of(colsm, gridm)[i]);
        }
    }
    let tc = table_chars(ascii);
    let mut out = render_top_border(&widths, &tc);
    let header = render_row(&columns, &widths, &tc, stripe, None);
    out.append(header.as_str());
    let sep = render_separator(&widths, &tc);
    out.append(sep.as_str());
    let ghost head_part = border_line(ws, tc.top_left, tc.top_tee, tc.top_right, tc.horizontal)
        + row_line(colsm, ws, tc.vertical, stripe, false) + border_line(
        ws,
        tc.left_tee,
        tc.cross,
        tc.right_tee,
        tc.horizontal,
    );
    assert(out@ =~= head_part);
    let mut k: usize = 0;
    while k < grid.len()
        invariant
            0 <= k <= grid@.len(),
            rowsm == rows.deep_view(),
            colsm == columns.deep_view(),
            gridm == grid.deep_view(),
            ws == widths_ints(widths@),
            tc == chars_of(ascii),
            widths@.len() == colsm.len(),
            table_fits(rowsm),
            colsm == columns_of(rowsm),
            gridm == grid_of(rowsm, colsm),
            ws == widths_of(colsm, gridm),
            out@ == head_part + data_rows_text(gridm, ws, tc.vertical, stripe, k as int),
        decreases grid@.len() - k,
    {
        proof {
            assert(gridm[k as int] == grid@[k as int].deep_view());
            assert(gridm[k as int] == row_cells(rowsm[k as int], colsm));
            assert(grid@[k as int]@.len() <= widths@.len());
            assert forall|i: int| 0 <= i < gridm[k as int].len() implies display_width(
                #[trigger] gridm[k as int][i],
            ) <= widths@[i] by {
                lemma_col_cells_max_ge(gridm, k as int, i);
                assert(ws[i] == widths_of(colsm, gridm)[i]);
            }
        }
        let line = render_row(&grid[k], &widths, &tc, stripe, Some(k));
        out.append(line.as_str());
        proof {
            assert(dim_of(stripe, Some(k)) == (stripe && (k as int) % 2 == 1));
            assert(out@ =~= head_part + data_rows_text(
                gridm,
                ws,
                tc.vertical,
                stripe,
                k + 1 as int,
            ));
        }
        k = k + 1;
    }
    let bottom = render_bottom_border(&widths, &tc);
    out.append(bottom.as_str());
    assert(out@ =~= table_text(rowsm, ascii, stripe));
    out
}

/// Renders the parsed rows as a table, first checking that every label and
/// cell leaves room for a border segment in `usize`: `None` exactly when one
/// does not, which no realistic input reaches.
pub fn try_render_table(rows: &Vec<ParsedRow>, ascii: bool, stripe: bool) -> (r: Option<String>)
    ensures
        match r {
            Some(s) => table_fits(rows.deep_view()) && s@ == table_text(
                rows.deep_view(),
                ascii,
                stripe,
            ),
            None => !table_fits(rows.deep_view()),
        },
{
    let ghost rowsm = rows.deep_view();
    let columns = extract_columns(rows);
    let ghost colsm = columns.deep_view();
    let grid = build_grid(rows, &columns);
    let ghost gridm = grid.deep_view();
    let limit = usize::MAX - 2;
    let mut i: usize = 0;
    while i < columns.len()
        invariant
            0 <= i <= columns@.len(),
            rowsm == rows.deep_view(),
            colsm == columns.deep_view(),
            colsm == columns_of(rowsm),
            gridm == grid_of(rowsm, colsm),
            limit == usize::MAX - 2,
            forall|j: int| 0 <= j < i ==> fits(#[trigger] colsm[j]),
        decreases columns@.len() - i,
    {
        assert(colsm[i as int] == columns@[i as int]@);
        match checked_string_width(columns[i].as_str()) {
            Some(cw) => {
                if cw > limit {
                    assert(!fits(colsm[i as int]));
                    assert(!table_fits(rowsm));
                    return None;
                }
            },
            None => {
                assert(!fits(colsm[i as int]));
                assert(!table_fits(rowsm));
                return None;
            },
        }
        i = i + 1;
    }
    let mut k: usize = 0;
    while k < grid.len()
        invariant
            0 <= k <= grid@.len(),
            rowsm == rows.deep_view(),
            colsm == columns.deep_view(),
            gridm == grid.deep_view(),
            colsm == columns_of(rowsm),
            gridm == grid_of(rowsm, colsm),
            limit == usize::MAX - 2,
            forall|j: int| 0 <= j < colsm.len() ==> fits(#[trigger] colsm[j]),
            forall|k0: int, j: int|
                0 <= k0 < k && 0 <= j < gridm[k0].len() ==> fits(#[trigger] gridm[k0][j]),
        decreases grid@.len() - k,
    {
        let mut j: usize = 0;
        while j < grid[k].len()
            invariant
                0 <= k < grid@.len(),
                0 <= j <= grid@[k as int]@.len(),
                rowsm == rows.deep_view(),
                gridm == grid.deep_view(),
                colsm == columns_of(rowsm),
                gridm == grid_of(rowsm, colsm),
                limit == usize::MAX - 2,
                gridm[k as int].len() == grid@[k as int]@.len(),
                forall|j0: int| 0 <= j0 < gridm[k as int].len() ==> gridm[k as int][j0]
                    == grid@[k as int]@[j0]@,
                forall|j0: int| 0 <= j0 < j ==> fits(#[trigger] gridm[k as int][j0]),
            decreases grid@[k as int]@.len() - j,
        {
            match checked_string_width(grid[k][j].as_str()) {
                Some(cw) => {
                    if cw > limit {
                        assert(!fits(gridm[k as int][j as int]));
                        assert(!table_fits(rowsm));
                        return None;
                    }
                },
                None => {
                    assert(!fits(gridm[k as int][j as int]));
                    assert(!table_fits(rowsm));
                    return None;
                },
            }
            j = j + 1;
        }
        k = k + 1;
    }
    assert(table_fits(rowsm));
    Some(render_table(rows, ascii, stripe))
}

} // verus!
