//! The two fixed glyph sets a table is drawn with: Unicode box-drawing
//! characters by default, plain ASCII on request. Exactly one set is active
//! per render.

use vstd::prelude::*;

verus! {

/// The eleven glyphs of one border style.
pub struct TableChars {
    pub top_left: char,
    pub top_right: char,
    pub bottom_left: char,
    pub bottom_right: char,
    pub horizontal: char,
    pub vertical: char,
    pub top_tee: char,
    pub bottom_tee: char,
    pub left_tee: char,
    pub right_tee: char,
    pub cross: char,
}

/// The Unicode box-drawing glyph set (rounded corners).
pub open spec fn unicode_chars() -> TableChars {
    TableChars {
        top_left: '\u{256d}',
        top_right: '\u{256e}',
        bottom_left: '\u{2570}',
        bottom_right: '\u{256f}',
        horizontal: '\u{2500}',
        vertical: '\u{2502}',
        top_tee: '\u{252c}',
        bottom_tee: '\u{2534}',
        left_tee: '\u{251c}',
        right_tee: '\u{2524}',
        cross: '\u{253c}',
    }
}

/// The ASCII glyph set: `+`, `-` and `|` only.
pub open spec fn ascii_chars() -> TableChars {
    TableChars {
        top_left: '+',
        top_right: '+',
        bottom_left: '+',
        bottom_right: '+',
        horizontal: '-',
        vertical: '|',
        top_tee: '+',
        bottom_tee: '+',
        left_tee: '+',
        right_tee: '+',
        cross: '+',
    }
}

/// The glyph set the `ascii` flag selects.
pub open spec fn chars_of(ascii: bool) -> TableChars {
    if ascii {
        ascii_chars()
    } else {
        unicode_chars()
    }
}

/// Builds the glyph set the `ascii` flag selects.
pub fn table_chars(ascii: bool) -> (r: TableChars)
    ensures
        r == chars_of(ascii),
{
    if ascii {
        TableChars {
            top_left: '+',
            top_right: '+',
            bottom_left: '+',
            bottom_right: '+',
            horizontal: '-',
            vertical: '|',
            top_tee: '+',
            bottom_tee: '+',
            left_tee: '+',
            right_tee: '+',
            cross: '+',
        }
    } else {
        TableChars {
            top_left: '\u{256d}',
            top_right: '\u{256e}',
            bottom_left: '\u{2570}',
            bottom_right: '\u{256f}',
            horizontal: '\u{2500}',
            vertical: '\u{2502}',
            top_tee: '\u{252c}',
            bottom_tee: '\u{2534}',
            left_tee: '\u{251c}',
            right_tee: '\u{2524}',
            cross: '\u{253c}',
        }
    }
}

} // verus!
