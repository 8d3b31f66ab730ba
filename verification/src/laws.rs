//! Laws of the renderer, stated and proved over the same spec functions the
//! executable functions' contracts use: line counts of a rendered table,
//! border width correctness, first-seen column order, empty cells for
//! missing keys, and how striping wraps a row.

use vstd::prelude::*;
use crate::json::{CellModel, RowModel};
use crate::render::{
    border_body, border_line, data_rows_text, dim_on, field_lookup, grid_of,
    lookup_text, padded_cell, repeat_char, row_body, row_cells, row_line, style_off, table_text,
    widths_of,
};
use crate::schema::{add_keys, columns_of, insert_key, row_fields};
use crate::glyphs::chars_of;

verus! {

/// How often a character occurs in a text.
pub open spec fn char_count(s: Seq<char>, c: char) -> int
    decreases s.len(),
{
    if s.len() == 0 {
        0
    } else {
        char_count(s.drop_last(), c) + if s.last() == c {
            1int
        } else {
            0int
        }
    }
}

/// How many line feeds a text holds.
pub open spec fn newline_count(s: Seq<char>) -> int {
    char_count(s, '\n')
}

/// Whether a text holds no line feed.
pub open spec fn newline_free(s: Seq<char>) -> bool {
    forall|i: int| 0 <= i < s.len() ==> s[i] != '\n'
}

pub proof fn lemma_char_count_add(a: Seq<char>, b: Seq<char>, c: char)
    ensures
        char_count(a + b, c) == char_count(a, c) + char_count(b, c),
    decreases b.len(),
{
    if b.len() == 0 {
        assert(a + b =~= a);
    } else {
        lemma_char_count_add(a, b.drop_last(), c);
        assert((a + b).drop_last() =~= a + b.drop_last());
        assert((a + b).last() == b.last());
    }
}

pub proof fn lemma_char_free_count(s: Seq<char>, c: char)
    requires
        forall|i: int| 0 <= i < s.len() ==> s[i] != c,
    ensures
        char_count(s, c) == 0,
    decreases s.len(),
{
    if s.len() > 0 {
        lemma_char_free_count(s.drop_last(), c);
    }
}

proof fn lemma_char_count_singleton(c: char, c0: char)
    ensures
        char_count(seq![c], c0) == if c == c0 {
            1int
        } else {
            0int
        },
{
    assert(char_count(Seq::<char>::empty(), c0) == 0);
    assert(seq![c].drop_last() =~= Seq::<char>::empty());
    assert(seq![c].last() == c);
    assert(seq![c].len() == 1);
}

/// A repetition of one character holds that character exactly `n` times and
/// any other character not at all.
pub proof fn lemma_repeat_char_count(c: char, n: int, c0: char)
    ensures
        char_count(repeat_char(c, n), c0) == if c == c0 && n > 0 {
            n
        } else {
            0int
        },
    decreases n,
{
    if n > 0 {
        lemma_repeat_char_count(c, n - 1, c0);
        assert(repeat_char(c, n).drop_last() =~= repeat_char(c, n - 1));
        assert(repeat_char(c, n).last() == c);
    }
}

pub proof fn lemma_newline_count_add(a: Seq<char>, b: Seq<char>)
    ensures
        newline_count(a + b) == newline_count(a) + newline_count(b),
{
    lemma_char_count_add(a, b, '\n');
}

pub proof fn lemma_newline_free_count(s: Seq<char>)
    requires
        newline_free(s),
    ensures
        newline_count(s) == 0,
{
    lemma_char_free_count(s, '\n');
}

proof fn lemma_newline_count_singleton(c: char)
    ensures
        newline_count(seq![c]) == if c == '\n' {
            1int
        } else {
            0int
        },
{
    lemma_char_count_singleton(c, '\n');
}

proof fn lemma_repeat_count(c: char, n: int)
    requires
        c != '\n',
    ensures
        newline_count(repeat_char(c, n)) == 0,
{
    lemma_repeat_char_count(c, n, '\n');
}

proof fn lemma_border_body_count(ws: Seq<int>, h: char, mid: char, k: int)
    requires
        h != '\n',
        mid != '\n',
    ensures
        newline_count(border_body(ws, h, mid, k)) == 0,
    decreases k,
{
    if k > 0 {
        lemma_border_body_count(ws, h, mid, k - 1);
        lemma_repeat_count(h, ws[k - 1] + 2);
        lemma_newline_count_singleton(mid);
        lemma_newline_count_add(border_body(ws, h, mid, k - 1), if k == 1 {
            Seq::<char>::empty()
        } else {
            seq![mid]
        });
        lemma_newline_count_add(border_body(ws, h, mid, k - 1) + (if k == 1 {
            Seq::<char>::empty()
        } else {
            seq![mid]
        }), repeat_char(h, ws[k - 1] + 2));
    }
}

/// A border line holds exactly one line feed: the one that ends it.
pub proof fn lemma_border_line_count(ws: Seq<int>, left: char, mid: char, right: char, h: char)
    requires
        left != '\n',
        mid != '\n',
        right != '\n',
        h != '\n',
    ensures
        newline_count(border_line(ws, left, mid, right, h)) == 1,
{
    lemma_border_body_count(ws, h, mid, ws.len() as int);
    lemma_newline_count_singleton(left);
    lemma_newline_count_singleton(right);
    lemma_newline_count_singleton('\n');
    lemma_newline_count_add(seq![left], border_body(ws, h, mid, ws.len() as int));
    lemma_newline_count_add(seq![left] + border_body(ws, h, mid, ws.len() as int), seq![right]);
    lemma_newline_count_add(
        seq![left] + border_body(ws, h, mid, ws.len() as int) + seq![right],
        seq!['\n'],
    );
}

proof fn lemma_padded_cell_count(cell: Seq<char>, w: int, bold: bool)
    requires
        newline_free(cell),
    ensures
        newline_count(padded_cell(cell, w, bold)) == 0,
{
    let styled = if bold {
        crate::render::bold_on() + cell + style_off()
    } else {
        cell
    };
    assert(newline_free(styled));
    lemma_newline_free_count(styled);
    lemma_repeat_count(' ', w - crate::width::display_width(cell));
    lemma_newline_count_singleton(' ');
    lemma_newline_count_add(seq![' '], styled);
    lemma_newline_count_add(seq![' '] + styled, repeat_char(' ', w - crate::width::display_width(cell)));
    lemma_newline_count_add(
        seq![' '] + styled + repeat_char(' ', w - crate::width::display_width(cell)),
        seq![' '],
    );
}

proof fn lemma_row_body_count(cells: Seq<Seq<char>>, ws: Seq<int>, v: char, bold: bool, k: int)
    requires
        v != '\n',
        forall|i: int| 0 <= i < cells.len() ==> newline_free(#[trigger] cells[i]),
        k <= cells.len(),
    ensures
        newline_count(row_body(cells, ws, v, bold, k)) == 0,
    decreases k,
{
    if k > 0 {
        lemma_row_body_count(cells, ws, v, bold, k - 1);
        lemma_padded_cell_count(cells[k - 1], ws[k - 1], bold);
        lemma_newline_count_singleton(v);
        lemma_newline_count_add(row_body(cells, ws, v, bold, k - 1), padded_cell(cells[k - 1], ws[k - 1], bold));
        lemma_newline_count_add(
            row_body(cells, ws, v, bold, k - 1) + padded_cell(cells[k - 1], ws[k - 1], bold),
            seq![v],
        );
    }
}

/// A content row line holds exactly one line feed: the one that ends it,
/// provided no cell text holds one itself.
pub proof fn lemma_row_line_count(cells: Seq<Seq<char>>, ws: Seq<int>, v: char, bold: bool, dim: bool)
    requires
        v != '\n',
        forall|i: int| 0 <= i < cells.len() ==> newline_free(#[trigger] cells[i]),
    ensures
        newline_count(row_line(cells, ws, v, bold, dim)) == 1,
{
    let lead = if dim {
        dim_on()
    } else {
        Seq::<char>::empty()
    };
    let tail = if dim {
        style_off()
    } else {
        Seq::<char>::empty()
    };
    assert(newline_free(lead));
    assert(newline_free(tail));
    lemma_newline_free_count(lead);
    lemma_newline_free_count(tail);
    lemma_newline_count_singleton(v);
    lemma_newline_count_singleton('\n');
    lemma_row_body_count(cells, ws, v, bold, cells.len() as int);
    lemma_newline_count_add(lead, seq![v]);
    lemma_newline_count_add(lead + seq![v], row_body(cells, ws, v, bold, cells.len() as int));
    lemma_newline_count_add(lead + seq![v] + row_body(cells, ws, v, bold, cells.len() as int), tail);
    lemma_newline_count_add(
        lead + seq![v] + row_body(cells, ws, v, bold, cells.len() as int) + tail,
        seq!['\n'],
    );
}

proof fn lemma_data_rows_count(
    grid: Seq<Seq<Seq<char>>>,
    ws: Seq<int>,
    v: char,
    stripe: bool,
    k: int,
)
    requires
        v != '\n',
        0 <= k <= grid.len(),
        forall|r: int, i: int|
            0 <= r < grid.len() && 0 <= i < grid[r].len() ==> newline_free(#[trigger] grid[r][i]),
    ensures
        newline_count(data_rows_text(grid, ws, v, stripe, k)) == k,
    decreases k,
{
    if k > 0 {
        lemma_data_rows_count(grid, ws, v, stripe, k - 1);
        assert(forall|i: int| 0 <= i < grid[k - 1].len() ==> newline_free(
            #[trigger] grid[k - 1][i],
        ));
        lemma_row_line_count(grid[k - 1], ws, v, false, stripe && (k - 1) % 2 == 1);
        lemma_newline_count_add(
            data_rows_text(grid, ws, v, stripe, k - 1),
            row_line(grid[k - 1], ws, v, false, stripe && (k - 1) % 2 == 1),
        );
    }
}

/// A rendered non-empty table has exactly `rows + 4` lines: top border,
/// header row, header/body separator, one line per data row, bottom border
/// (each line ends in the line feed counted here), provided no header label
/// or cell text holds a line feed of its own.
pub proof fn lemma_table_line_count(rows: Seq<RowModel>, ascii: bool, stripe: bool)
    requires
        rows.len() > 0,
        columns_of(rows).len() > 0,
        forall|i: int| 0 <= i < columns_of(rows).len() ==> newline_free(
            #[trigger] columns_of(rows)[i],
        ),
        forall|r: int, i: int|
            0 <= r < grid_of(rows, columns_of(rows)).len() && 0 <= i < grid_of(
                rows,
                columns_of(rows),
            )[r].len() ==> newline_free(#[trigger] grid_of(rows, columns_of(rows))[r][i]),
    ensures
        newline_count(table_text(rows, ascii, stripe)) == rows.len() + 4,
{
    let cols = columns_of(rows);
    let grid = grid_of(rows, cols);
    let ws = widths_of(cols, grid);
    let tc = chars_of(ascii);
    let top = border_line(ws, tc.top_left, tc.top_tee, tc.top_right, tc.horizontal);
    let head = row_line(cols, ws, tc.vertical, stripe, false);
    let sep = border_line(ws, tc.left_tee, tc.cross, tc.right_tee, tc.horizontal);
    let data = data_rows_text(grid, ws, tc.vertical, stripe, grid.len() as int);
    let bottom = border_line(ws, tc.bottom_left, tc.bottom_tee, tc.bottom_right, tc.horizontal);
    lemma_border_line_count(ws, tc.top_left, tc.top_tee, tc.top_right, tc.horizontal);
    lemma_row_line_count(cols, ws, tc.vertical, stripe, false);
    lemma_border_line_count(ws, tc.left_tee, tc.cross, tc.right_tee, tc.horizontal);
    lemma_data_rows_count(grid, ws, tc.vertical, stripe, grid.len() as int);
    lemma_border_line_count(ws, tc.bottom_left, tc.bottom_tee, tc.bottom_right, tc.horizontal);
    lemma_newline_count_add(top, head);
    lemma_newline_count_add(top + head, sep);
    lemma_newline_count_add(top + head + sep, data);
    lemma_newline_count_add(top + head + sep + data, bottom);
}

proof fn lemma_repeat_char_len(c: char, n: int)
    ensures
        repeat_char(c, n).len() == if n <= 0 {
            0int
        } else {
            n
        },
    decreases n,
{
    if n > 0 {
        lemma_repeat_char_len(c, n - 1);
    }
}

/// Width correctness of borders: the border body over the first `k` columns
/// extends the body over `k - 1` columns by a tee (between columns) and a
/// segment of exactly `ws[k-1] + 2` horizontal glyphs — each column of width
/// `W` gets a border segment of exactly `W + 2` glyphs.
pub proof fn lemma_border_segment(ws: Seq<int>, h: char, mid: char, k: int)
    requires
        1 <= k,
        ws[k - 1] >= 0,
    ensures
        border_body(ws, h, mid, k) == border_body(ws, h, mid, k - 1) + (if k == 1 {
            Seq::<char>::empty()
        } else {
            seq![mid]
        }) + repeat_char(h, ws[k - 1] + 2),
        repeat_char(h, ws[k - 1] + 2).len() == ws[k - 1] + 2,
{
    lemma_repeat_char_len(h, ws[k - 1] + 2);
}

/// An empty row sequence renders as the empty text: zero bytes, no borders.
pub proof fn lemma_empty_input(ascii: bool, stripe: bool)
    ensures
        table_text(Seq::empty(), ascii, stripe) == Seq::<char>::empty(),
{
}

proof fn lemma_insert_key_distinct(cols: Seq<Seq<char>>, k: Seq<char>)
    requires
        cols.no_duplicates(),
    ensures
        insert_key(cols, k).no_duplicates(),
{
    if !cols.contains(k) {
        assert forall|i: int, j: int|
            0 <= i < insert_key(cols, k).len() && 0 <= j < insert_key(cols, k).len() && i
                != j implies insert_key(cols, k)[i] != insert_key(cols, k)[j] by {
            if i < cols.len() && j < cols.len() {
            } else if i < cols.len() {
                assert(cols[i] == insert_key(cols, k)[i]);
            } else if j < cols.len() {
                assert(cols[j] == insert_key(cols, k)[j]);
            }
        }
    }
}

proof fn lemma_add_keys_distinct(cols: Seq<Seq<char>>, fs: Seq<(Seq<char>, CellModel)>)
    requires
        cols.no_duplicates(),
    ensures
        add_keys(cols, fs).no_duplicates(),
    decreases fs.len(),
{
    if fs.len() > 0 {
        lemma_add_keys_distinct(cols, fs.drop_last());
        lemma_insert_key_distinct(add_keys(cols, fs.drop_last()), fs.last().0);
    }
}

/// The column set never repeats a key.
pub proof fn lemma_columns_distinct(rows: Seq<RowModel>)
    ensures
        columns_of(rows).no_duplicates(),
    decreases rows.len(),
{
    if rows.len() > 0 {
        lemma_columns_distinct(rows.drop_last());
        lemma_add_keys_distinct(columns_of(rows.drop_last()), row_fields(rows.last()));
    }
}

proof fn lemma_add_keys_prefix(cols: Seq<Seq<char>>, fs: Seq<(Seq<char>, CellModel)>)
    ensures
        cols.is_prefix_of(add_keys(cols, fs)),
    decreases fs.len(),
{
    if fs.len() > 0 {
        lemma_add_keys_prefix(cols, fs.drop_last());
        let pre = add_keys(cols, fs.drop_last());
        assert(pre.is_prefix_of(insert_key(pre, fs.last().0)));
        assert(cols =~= add_keys(cols, fs).take(cols.len() as int));
    }
}

/// First-seen order is stable: the columns of a prefix of the input are a
/// prefix of the columns of the whole input — later rows only append new
/// columns, never reorder the ones already seen.
pub proof fn lemma_columns_first_seen(rows: Seq<RowModel>, n: int)
    requires
        0 <= n <= rows.len(),
    ensures
        columns_of(rows.take(n)).is_prefix_of(columns_of(rows)),
    decreases rows.len() - n,
{
    if n == rows.len() {
        assert(rows.take(n) =~= rows);
        assert(columns_of(rows) =~= columns_of(rows).take(columns_of(rows).len() as int));
    } else {
        lemma_columns_first_seen(rows, n + 1);
        let upto = rows.take(n + 1);
        assert(upto.drop_last() =~= rows.take(n));
        assert(upto.last() == rows[n]);
        lemma_add_keys_prefix(columns_of(rows.take(n)), row_fields(rows[n]));
        let a = columns_of(rows.take(n));
        let b = columns_of(rows.take(n + 1));
        let c = columns_of(rows);
        assert(a =~= b.take(a.len() as int));
        assert(b =~= c.take(b.len() as int));
        assert(a =~= c.take(a.len() as int));
    }
}

proof fn lemma_prefix_contains(a: Seq<Seq<char>>, b: Seq<Seq<char>>, k: Seq<char>)
    requires
        a.is_prefix_of(b),
        a.contains(k),
    ensures
        b.contains(k),
{
    let i = choose|i: int| 0 <= i < a.len() && a[i] == k;
    assert(b[i] == a[i]);
}

proof fn lemma_add_keys_contains(cols: Seq<Seq<char>>, fs: Seq<(Seq<char>, CellModel)>, j: int)
    requires
        0 <= j < fs.len(),
    ensures
        add_keys(cols, fs).contains(fs[j].0),
    decreases fs.len(),
{
    let pre = add_keys(cols, fs.drop_last());
    if j == fs.len() - 1 {
        if pre.contains(fs[j].0) {
        } else {
            assert(insert_key(pre, fs[j].0)[pre.len() as int] == fs[j].0);
        }
    } else {
        lemma_add_keys_contains(cols, fs.drop_last(), j);
        assert(fs.drop_last()[j] == fs[j]);
        lemma_add_keys_prefix(pre, fs);
        lemma_prefix_contains(pre, insert_key(pre, fs.last().0), fs[j].0);
    }
}

/// The column set is complete: every key of every object row appears among
/// the columns.
pub proof fn lemma_columns_complete(rows: Seq<RowModel>, r: int, j: int)
    requires
        0 <= r < rows.len(),
        0 <= j < row_fields(rows[r]).len(),
    ensures
        columns_of(rows).contains(row_fields(rows[r])[j].0),
    decreases rows.len(),
{
    if r == rows.len() - 1 {
        lemma_add_keys_contains(columns_of(rows.drop_last()), row_fields(rows.last()), j);
    } else {
        lemma_columns_complete(rows.drop_last(), r, j);
        lemma_add_keys_prefix(columns_of(rows.drop_last()), row_fields(rows.last()));
        lemma_prefix_contains(
            columns_of(rows.drop_last()),
            columns_of(rows),
            row_fields(rows.drop_last()[r])[j].0,
        );
    }
}

proof fn lemma_add_keys_sound(cols: Seq<Seq<char>>, fs: Seq<(Seq<char>, CellModel)>, x: Seq<char>)
    requires
        add_keys(cols, fs).contains(x),
    ensures
        cols.contains(x) || exists|j: int| 0 <= j < fs.len() && (#[trigger] fs[j]).0 == x,
    decreases fs.len(),
{
    if fs.len() > 0 {
        let pre = add_keys(cols, fs.drop_last());
        if pre.contains(x) {
            lemma_add_keys_sound(cols, fs.drop_last(), x);
            if !cols.contains(x) {
                let j = choose|j: int|
                    0 <= j < fs.drop_last().len() && (#[trigger] fs.drop_last()[j]).0 == x;
                assert(fs[j].0 == x);
            }
        } else {
            let i = choose|i: int|
                0 <= i < insert_key(pre, fs.last().0).len() && insert_key(pre, fs.last().0)[i]
                    == x;
            assert(i == pre.len());
            assert(fs[fs.len() - 1].0 == x);
        }
    }
}

/// The column set is sound: every column key is a key of some object row.
pub proof fn lemma_columns_sound(rows: Seq<RowModel>, i: int)
    requires
        0 <= i < columns_of(rows).len(),
    ensures
        exists|r: int, j: int|
            0 <= r < rows.len() && 0 <= j < row_fields(rows[r]).len() && (#[trigger] row_fields(
                rows[r],
            )[j]).0 == columns_of(rows)[i],
    decreases rows.len(),
{
    let x = columns_of(rows)[i];
    assert(columns_of(rows).contains(x));
    lemma_add_keys_sound(columns_of(rows.drop_last()), row_fields(rows.last()), x);
    if columns_of(rows.drop_last()).contains(x) {
        let i2 = choose|i2: int|
            0 <= i2 < columns_of(rows.drop_last()).len() && columns_of(rows.drop_last())[i2] == x;
        lemma_columns_sound(rows.drop_last(), i2);
        let (r, j): (int, int) = choose|r: int, j: int|
            0 <= r < rows.drop_last().len() && 0 <= j < row_fields(rows.drop_last()[r]).len() && (
            #[trigger] row_fields(rows.drop_last()[r])[j]).0 == columns_of(rows.drop_last())[i2];
        assert(rows.drop_last()[r] == rows[r]);
        assert(0 <= r < rows.len() && 0 <= j < row_fields(rows[r]).len() && row_fields(
            rows[r],
        )[j].0 == x);
    } else {
        let j = choose|j: int|
            0 <= j < row_fields(rows.last()).len() && (#[trigger] row_fields(rows.last())[j]).0
                == x;
        assert(rows.last() == rows[rows.len() - 1]);
        assert(0 <= rows.len() - 1 < rows.len() && 0 <= j < row_fields(
            rows[rows.len() - 1],
        ).len() && row_fields(rows[rows.len() - 1])[j].0 == x);
    }
}

proof fn lemma_field_lookup_none(fs: Seq<(Seq<char>, CellModel)>, k: Seq<char>)
    requires
        forall|j: int| 0 <= j < fs.len() ==> (#[trigger] fs[j]).0 != k,
    ensures
        field_lookup(fs, k) is None,
    decreases fs.len(),
{
    if fs.len() > 0 {
        assert(forall|j: int| 0 <= j < fs.drop_first().len() ==> (#[trigger] fs.drop_first()[j]).0
            != k) by {
            assert(forall|j: int| 0 <= j < fs.drop_first().len() ==> fs.drop_first()[j] == fs[j
                + 1]);
        }
        lemma_field_lookup_none(fs.drop_first(), k);
    }
}

/// A sparse row's missing cell renders as the empty string — not as
/// `"null"`, which only an explicit JSON null produces.
pub proof fn lemma_missing_cell_empty(
    fs: Seq<(Seq<char>, CellModel)>,
    cols: Seq<Seq<char>>,
    i: int,
)
    requires
        0 <= i < cols.len(),
        forall|j: int| 0 <= j < fs.len() ==> (#[trigger] fs[j]).0 != cols[i],
    ensures
        row_cells(RowModel::Fields(fs), cols)[i] == Seq::<char>::empty(),
{
    lemma_field_lookup_none(fs, cols[i]);
    assert(lookup_text(fs, cols[i]) == Seq::<char>::empty());
}

/// A dimmed row is exactly the plain row wrapped whole in the dim escape and
/// the reset escape, the reset placed before the closing line feed; dimming
/// changes nothing else, and the header's bold emphasis does not depend on
/// row parity.
pub proof fn lemma_dim_wraps_row(cells: Seq<Seq<char>>, ws: Seq<int>, v: char, bold: bool)
    ensures
        row_line(cells, ws, v, bold, true) == dim_on() + row_line(cells, ws, v, bold, false).drop_last()
            + style_off() + seq!['\n'],
{
    let plain = row_line(cells, ws, v, bold, false);
    assert(plain =~= seq![v] + row_body(cells, ws, v, bold, cells.len() as int) + seq!['\n']);
    assert(plain.drop_last() =~= seq![v] + row_body(cells, ws, v, bold, cells.len() as int));
    assert(row_line(cells, ws, v, bold, true) =~= dim_on() + plain.drop_last() + style_off()
        + seq!['\n']);
}


/// The horizontal glyphs a border allots to the first `k` columns: exactly
/// `width + 2` for each.
pub open spec fn segments_total(ws: Seq<int>, k: int) -> int
    decreases k,
{
    if k <= 0 {
        0
    } else {
        segments_total(ws, k - 1) + ws[k - 1] + 2
    }
}

proof fn lemma_border_body_horizontals(ws: Seq<int>, h: char, mid: char, k: int)
    requires
        h != mid,
        0 <= k <= ws.len(),
        forall|i: int| 0 <= i < ws.len() ==> ws[i] >= 0,
    ensures
        char_count(border_body(ws, h, mid, k), h) == segments_total(ws, k),
    decreases k,
{
    if k > 0 {
        lemma_border_body_horizontals(ws, h, mid, k - 1);
        lemma_char_count_singleton(mid, h);
        lemma_repeat_char_count(h, ws[k - 1] + 2, h);
        lemma_char_count_add(border_body(ws, h, mid, k - 1), if k == 1 {
            Seq::<char>::empty()
        } else {
            seq![mid]
        }, h);
        lemma_char_count_add(border_body(ws, h, mid, k - 1) + (if k == 1 {
            Seq::<char>::empty()
        } else {
            seq![mid]
        }), repeat_char(h, ws[k - 1] + 2), h);
    }
}

/// Width correctness of a whole border line: it holds exactly `width + 2`
/// horizontal glyphs for every column, and nothing else contributes one.
pub proof fn lemma_border_horizontal_count(
    ws: Seq<int>,
    left: char,
    mid: char,
    right: char,
    h: char,
)
    requires
        h != left,
        h != mid,
        h != right,
        h != '\n',
        forall|i: int| 0 <= i < ws.len() ==> ws[i] >= 0,
    ensures
        char_count(border_line(ws, left, mid, right, h), h) == segments_total(
            ws,
            ws.len() as int,
        ),
{
    lemma_border_body_horizontals(ws, h, mid, ws.len() as int);
    lemma_char_count_singleton(left, h);
    lemma_char_count_singleton(right, h);
    lemma_char_count_singleton('\n', h);
    lemma_char_count_add(seq![left], border_body(ws, h, mid, ws.len() as int), h);
    lemma_char_count_add(seq![left] + border_body(ws, h, mid, ws.len() as int), seq![right], h);
    lemma_char_count_add(
        seq![left] + border_body(ws, h, mid, ws.len() as int) + seq![right],
        seq!['\n'],
        h,
    );
}

/// A border line over no columns is the two corner glyphs and a line break.
pub proof fn lemma_border_line_no_columns(ws: Seq<int>, left: char, mid: char, right: char, h: char)
    requires
        ws.len() == 0,
    ensures
        border_line(ws, left, mid, right, h) == seq![left, right, '\n'],
{
    assert(border_line(ws, left, mid, right, h) =~= seq![left, right, '\n']);
}

/// Every border line ends in its line break.
pub proof fn lemma_border_line_ends(ws: Seq<int>, left: char, mid: char, right: char, h: char)
    ensures
        border_line(ws, left, mid, right, h).len() >= 3,
        border_line(ws, left, mid, right, h).last() == '\n',
{
    assert(border_line(ws, left, mid, right, h).last() == '\n');
}

} // verus!
