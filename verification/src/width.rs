//! Display width of strings in terminal columns: wide characters count as 2,
//! zero-width and control characters as 0, ordinary characters as 1. The
//! per-character width comes from the unicode-width crate; the width of a
//! string is the sum over its characters.

use vstd::prelude::*;

verus! {

/// The terminal column width of one character, as unicode-width assigns it.
/// It depends on the character alone.
pub uninterp spec fn char_width(c: char) -> nat;

/// The display width of a string: the sum of its characters' widths.
pub open spec fn display_width(s: Seq<char>) -> nat
    decreases s.len(),
{
    if s.len() == 0 {
        0
    } else {
        display_width(s.drop_last()) + char_width(s.last())
    }
}

/// Relies on unicode_width::UnicodeWidthChar::width: the displayed width in
/// columns of one character, `None` (taken as 0) for control characters. The
/// result depends on the character alone, named by `char_width`.
#[verifier::external_body]
pub fn width_of_char(c: char) -> (r: usize)
    ensures
        r == char_width(c),
{
    unicode_width::UnicodeWidthChar::width(c).unwrap_or(0)
}

/// Splitting a string splits its display width.
pub proof fn lemma_display_width_add(a: Seq<char>, b: Seq<char>)
    ensures
        display_width(a + b) == display_width(a) + display_width(b),
    decreases b.len(),
{
    if b.len() == 0 {
        assert(a + b =~= a);
    } else {
        lemma_display_width_add(a, b.drop_last());
        assert((a + b).drop_last() =~= a + b.drop_last());
        assert((a + b).last() == b.last());
    }
}

/// The width of a prefix is at most the width of the whole string.
pub proof fn lemma_display_width_prefix(s: Seq<char>, i: int)
    requires
        0 <= i <= s.len(),
    ensures
        display_width(s.take(i)) <= display_width(s),
{
    lemma_display_width_add(s.take(i), s.skip(i));
    assert(s.take(i) + s.skip(i) =~= s);
}

/// The display width of a string, summed with overflow detection: `None`
/// exactly when the sum does not fit in `usize`.
pub fn checked_string_width(s: &str) -> (r: Option<usize>)
    ensures
        match r {
            Some(w) => w == display_width(s@),
            None => display_width(s@) > usize::MAX,
        },
{
    let n = s.unicode_len();
    let mut acc: usize = 0;
    let mut i: usize = 0;
    while i < n
        invariant
            0 <= i <= n,
            n == s@.len(),
            acc == display_width(s@.take(i as int)),
        decreases n - i,
    {
        let w = width_of_char(s.get_char(i));
        proof {
            assert(s@.take(i + 1 as int).drop_last() =~= s@.take(i as int));
            assert(s@.take(i + 1 as int).last() == s@[i as int]);
        }
        match acc.checked_add(w) {
            Some(sum) => {
                acc = sum;
            },
            None => {
                proof {
                    lemma_display_width_prefix(s@, i + 1 as int);
                }
                return None;
            },
        }
        i = i + 1;
    }
    proof {
        assert(s@.take(n as int) =~= s@);
    }
    Some(acc)
}

/// The display width of a string that is known to fit in `usize`.
pub fn string_width(s: &str) -> (r: usize)
    requires
        display_width(s@) <= usize::MAX,
    ensures
        r == display_width(s@),
{
    match checked_string_width(s) {
        Some(w) => w,
        None => {
            proof {
                assert(false);
            }
            0
        },
    }
}

} // verus!
