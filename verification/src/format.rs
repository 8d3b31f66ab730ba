//! The cell formatter: every JSON value becomes one display string. Total:
//! formatting never fails. A missing cell is handled one level up, as the
//! empty string, which keeps it distinct from JSON null's `"null"`.

use vstd::prelude::*;
use crate::json::{CellModel, CellValue};
use crate::numfmt::dec_str;

verus! {

/// The display text of one cell value: `null`, `true`/`false`, a number's
/// own decimal text, a string's content verbatim, `[N items]` for an array,
/// `{N keys}` for an object.
pub open spec fn format_cell(v: CellModel) -> Seq<char> {
    match v {
        CellModel::Null => seq!['n', 'u', 'l', 'l'],
        CellModel::Bool(b) => if b {
            seq!['t', 'r', 'u', 'e']
        } else {
            seq!['f', 'a', 'l', 's', 'e']
        },
        CellModel::Number(t) => t,
        CellModel::Text(t) => t,
        CellModel::Array(n) => seq!['['] + dec_str(n as int) + seq![' ', 'i', 't', 'e', 'm', 's', ']'],
        CellModel::Object(n) => seq!['{'] + dec_str(n as int) + seq![' ', 'k', 'e', 'y', 's', '}'],
    }
}

/// Relies on String implementing FromIterator<char>: collecting characters
/// yields the string of exactly those characters, in order.
#[verifier::external_body]
pub fn chars_to_string(cs: &Vec<char>) -> (r: String)
    ensures
        r@ == cs@,
{
    cs.iter().collect()
}

/// Appends every character of `s` to `out`.
pub fn push_str_chars(out: &mut Vec<char>, s: &str)
    ensures
        final(out)@ == old(out)@ + s@,
{
    let n = s.unicode_len();
    let mut i: usize = 0;
    while i < n
        invariant
            0 <= i <= n,
            n == s@.len(),
            out@ == old(out)@ + s@.take(i as int),
        decreases n - i,
    {
        out.push(s.get_char(i));
        assert(out@ =~= old(out)@ + s@.take(i + 1 as int));
        i = i + 1;
    }
    assert(out@ =~= old(out)@ + s@);
}

/// Formats one cell value for display. Total and pure: it never fails, and
/// the result is exactly `format_cell` of the value.
pub fn format_value(v: &CellValue) -> (r: String)
    ensures
        r@ == format_cell(v@),
{
    match v {
        CellValue::Null => {
            let r = String::from_str("null");
            proof {
                reveal_strlit("null");
                assert(r@ =~= format_cell(v@));
            }
            r
        },
        CellValue::Bool(b) => {
            if *b {
                let r = String::from_str("true");
                proof {
                    reveal_strlit("true");
                    assert(r@ =~= format_cell(v@));
                }
                r
            } else {
                let r = String::from_str("false");
                proof {
                    reveal_strlit("false");
                    assert(r@ =~= format_cell(v@));
                }
                r
            }
        },
        CellValue::Number(t) => t.clone(),
        CellValue::Text(t) => t.clone(),
        CellValue::Array(n) => {
            let mut cs: Vec<char> = Vec::new();
            cs.push('[');
            crate::numfmt::push_decimal(&mut cs, *n);
            cs.push(' ');
            cs.push('i');
            cs.push('t');
            cs.push('e');
            cs.push('m');
            cs.push('s');
            cs.push(']');
            assert(cs@ =~= format_cell(v@));
            chars_to_string(&cs)
        },
        CellValue::Object(n) => {
            let mut cs: Vec<char> = Vec::new();
            cs.push('{');
            crate::numfmt::push_decimal(&mut cs, *n);
            cs.push(' ');
            cs.push('k');
            cs.push('e');
            cs.push('y');
            cs.push('s');
            cs.push('}');
            assert(cs@ =~= format_cell(v@));
            chars_to_string(&cs)
        },
    }
}

} // verus!
