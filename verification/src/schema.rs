//! The schema extractor: the ordered set of distinct column keys across all
//! rows, in first-seen order. A row that is not an object contributes no
//! keys.

use vstd::prelude::*;
use crate::json::{CellModel, CellValue, ParsedRow, RowModel};

verus! {

/// The fields a row contributes: its key/value pairs for an object row,
/// nothing for any other row.
pub open spec fn row_fields(r: RowModel) -> Seq<(Seq<char>, CellModel)> {
    match r {
        RowModel::Fields(fs) => fs,
        RowModel::Scalar => Seq::empty(),
    }
}

/// Registers one key: appended if unseen, ignored otherwise.
pub open spec fn insert_key(cols: Seq<Seq<char>>, k: Seq<char>) -> Seq<Seq<char>> {
    if cols.contains(k) {
        cols
    } else {
        cols.push(k)
    }
}

/// Registers a row's keys left to right.
pub open spec fn add_keys(cols: Seq<Seq<char>>, fs: Seq<(Seq<char>, CellModel)>) -> Seq<Seq<char>>
    decreases fs.len(),
{
    if fs.len() == 0 {
        cols
    } else {
        insert_key(add_keys(cols, fs.drop_last()), fs.last().0)
    }
}

/// The column keys of a row sequence: every key of every object row, each at
/// its first appearance, in input order.
pub open spec fn columns_of(rows: Seq<RowModel>) -> Seq<Seq<char>>
    decreases rows.len(),
{
    if rows.len() == 0 {
        Seq::empty()
    } else {
        add_keys(columns_of(rows.drop_last()), row_fields(rows.last()))
    }
}

/// Whether a string vector holds a string of the given characters.
pub fn contains_string(v: &Vec<String>, k: &String) -> (r: bool)
    ensures
        r == v.deep_view().contains(k@),
{
    let mut i: usize = 0;
    while i < v.len()
        invariant
            0 <= i <= v@.len(),
            forall|j: int| 0 <= j < i ==> v.deep_view()[j] != k@,
        decreases v@.len() - i,
    {
        if v[i] == *k {
            assert(v.deep_view()[i as int] == k@);
            return true;
        }
        i = i + 1;
    }
    false
}

fn add_row_keys(cols: &mut Vec<String>, fields: &Vec<(String, CellValue)>)
    ensures
        final(cols).deep_view() == add_keys(old(cols).deep_view(), fields.deep_view()),
{
    let mut j: usize = 0;
    while j < fields.len()
        invariant
            0 <= j <= fields@.len(),
            cols.deep_view() == add_keys(old(cols).deep_view(), fields.deep_view().take(j as int)),
        decreases fields@.len() - j,
    {
        let ghost pre = cols.deep_view();
        let seen = contains_string(cols, &fields[j].0);
        if !seen {
            let key = fields[j].0.clone();
            cols.push(key);
            assert(cols.deep_view() =~= pre.push(fields@[j as int].0@));
        }
        proof {
            let fv = fields.deep_view();
            assert(fv.take(j + 1 as int).drop_last() =~= fv.take(j as int));
            assert(fv.take(j + 1 as int).last() == fv[j as int]);
            assert(fv[j as int].0 == fields@[j as int].0@);
        }
        j = j + 1;
    }
    proof {
        assert(fields.deep_view().take(fields@.len() as int) =~= fields.deep_view());
    }
}

/// Walks every row in order and collects each object key the first time it
/// is seen. The result is exactly `columns_of` the rows: deterministic,
/// first-seen order, no duplicates.
pub fn extract_columns(rows: &Vec<ParsedRow>) -> (r: Vec<String>)
    ensures
        r.deep_view() == columns_of(rows.deep_view()),
{
    let mut cols: Vec<String> = Vec::new();
    let mut i: usize = 0;
    while i < rows.len()
        invariant
            0 <= i <= rows@.len(),
            cols.deep_view() == columns_of(rows.deep_view().take(i as int)),
        decreases rows@.len() - i,
    {
        match &rows[i] {
            ParsedRow::Object(fields) => {
                add_row_keys(&mut cols, fields);
            },
            ParsedRow::Other => {},
        }
        proof {
            let rv = rows.deep_view();
            assert(rv.take(i + 1 as int).drop_last() =~= rv.take(i as int));
            assert(rv.take(i + 1 as int).last() == rv[i as int]);
            assert(rv[i as int] == rows@[i as int].deep_view());
            match rows@[i as int] {
                ParsedRow::Object(fields) => {
                    assert(row_fields(rv[i as int]) == fields.deep_view());
                },
                ParsedRow::Other => {
                    assert(add_keys(cols.deep_view(), Seq::empty()) == cols.deep_view());
                },
            }
        }
        i = i + 1;
    }
    proof {
        assert(rows.deep_view().take(rows@.len() as int) =~= rows.deep_view());
    }
    cols
}

} // verus!
