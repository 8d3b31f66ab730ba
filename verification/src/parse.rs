//! The parser: raw text to a sequence of row values. The whole input is
//! first tried as one JSON document; only if that fails to parse is the
//! input read as newline-delimited JSON, one object per non-blank line. A
//! well-formed document of the wrong shape (a bare scalar) is a shape error
//! at once and never falls through to the line-delimited mode.

use vstd::prelude::*;
use crate::json::{json_doc, parse_document, DocModel, ParsedDoc, ParsedRow, RowModel};

verus! {

/// Why parsing failed: a top-level value of the wrong shape, or text that is
/// not well-formed JSON (with the parser's diagnostic).
#[derive(Debug)]
pub enum TableError {
    UnexpectedShape,
    InvalidJson(String),
}

/// Mathematical model of a `TableError`.
pub enum ErrModel {
    UnexpectedShape,
    InvalidJson(Seq<char>),
}

impl View for TableError {
    type V = ErrModel;

    open spec fn view(&self) -> ErrModel {
        match self {
            TableError::UnexpectedShape => ErrModel::UnexpectedShape,
            TableError::InvalidJson(m) => ErrModel::InvalidJson(m@),
        }
    }
}

/// Whether a character counts as whitespace when lines are trimmed: the
/// characters with the Unicode White_Space property, written out.
pub open spec fn is_ws(c: char) -> bool {
    ||| c == '\u{9}'  // tab
    ||| c == '\u{a}'  // line feed
    ||| c == '\u{b}'  // vertical tab
    ||| c == '\u{c}'  // form feed
    ||| c == '\u{d}'  // carriage return
    ||| c == ' '
    ||| c == '\u{85}'  // next line
    ||| c == '\u{a0}'  // no-break space
    ||| c == '\u{1680}'  // ogham space mark
    ||| c == '\u{2000}'  // en quad .. hair space
    ||| c == '\u{2001}'
    ||| c == '\u{2002}'
    ||| c == '\u{2003}'
    ||| c == '\u{2004}'
    ||| c == '\u{2005}'
    ||| c == '\u{2006}'
    ||| c == '\u{2007}'
    ||| c == '\u{2008}'
    ||| c == '\u{2009}'
    ||| c == '\u{200a}'
    ||| c == '\u{2028}'  // line separator
    ||| c == '\u{2029}'  // paragraph separator
    ||| c == '\u{202f}'  // narrow no-break space
    ||| c == '\u{205f}'  // medium mathematical space
    ||| c == '\u{3000}'  // ideographic space
}

/// Relies on char::is_whitespace: true exactly for the characters with the
/// Unicode White_Space property, the set `is_ws` writes out.
#[verifier::external_body]
pub fn char_is_whitespace(c: char) -> (r: bool)
    ensures
        r == is_ws(c),
{
    c.is_whitespace()
}

/// How many characters precede the first line feed (all of them if none).
pub open spec fn until_newline(s: Seq<char>) -> int
    decreases s.len(),
{
    if s.len() == 0 {
        0
    } else if s[0] == '\n' {
        0
    } else {
        1 + until_newline(s.skip(1))
    }
}

/// Any index with no line feed before it and one (or the end) at it is
/// `until_newline`.
pub proof fn lemma_until_newline_is(s: Seq<char>, k: int)
    requires
        0 <= k <= s.len(),
        forall|i: int| 0 <= i < k ==> s[i] != '\n',
        k < s.len() ==> s[k] == '\n',
    ensures
        k == until_newline(s),
    decreases s.len(),
{
    if s.len() == 0 {
    } else if s[0] == '\n' {
        assert(k == 0);
    } else {
        assert(k >= 1);
        lemma_until_newline_is(s.skip(1), k - 1);
    }
}

/// The length of the whitespace prefix.
pub open spec fn ws_prefix(s: Seq<char>) -> int
    decreases s.len(),
{
    if s.len() == 0 {
        0
    } else if !is_ws(s[0]) {
        0
    } else {
        1 + ws_prefix(s.skip(1))
    }
}

/// The length of the whitespace suffix.
pub open spec fn ws_suffix(s: Seq<char>) -> int
    decreases s.len(),
{
    if s.len() == 0 {
        0
    } else if !is_ws(s.last()) {
        0
    } else {
        1 + ws_suffix(s.drop_last())
    }
}

pub proof fn lemma_ws_prefix_is(s: Seq<char>, k: int)
    requires
        0 <= k <= s.len(),
        forall|i: int| 0 <= i < k ==> is_ws(s[i]),
        k < s.len() ==> !is_ws(s[k]),
    ensures
        k == ws_prefix(s),
    decreases s.len(),
{
    if s.len() == 0 {
    } else if !is_ws(s[0]) {
        assert(k == 0);
    } else {
        assert(k >= 1);
        lemma_ws_prefix_is(s.skip(1), k - 1);
    }
}

pub proof fn lemma_ws_suffix_is(s: Seq<char>, k: int)
    requires
        0 <= k <= s.len(),
        forall|i: int| s.len() - k <= i < s.len() ==> is_ws(s[i]),
        k < s.len() ==> !is_ws(s[s.len() - k - 1]),
    ensures
        k == ws_suffix(s),
    decreases s.len(),
{
    if s.len() == 0 {
    } else if !is_ws(s.last()) {
        assert(k == 0);
    } else {
        assert(k >= 1);
        lemma_ws_suffix_is(s.drop_last(), k - 1);
    }
}

/// A line with its leading and trailing whitespace removed.
pub open spec fn trim_spec(s: Seq<char>) -> Seq<char> {
    let t = s.skip(ws_prefix(s));
    t.take(t.len() - ws_suffix(t))
}

/// The input split at line feeds, as the line-delimited mode reads it: the
/// final fragment after the last line feed is a line only if non-empty.
pub open spec fn split_lines(s: Seq<char>) -> Seq<Seq<char>>
    decreases s.len(),
{
    if s.len() == 0 {
        Seq::empty()
    } else {
        let i = until_newline(s);
        if 0 <= i < s.len() {
            seq![s.take(i)] + split_lines(s.skip(i + 1))
        } else {
            seq![s]
        }
    }
}

/// The rows of line-delimited input: blank lines are skipped, every other
/// line must parse as a JSON object. The first offending line decides the
/// error: a malformed line is an invalid-JSON error with the parser's
/// diagnostic, a well-formed line that is not an object is a shape error.
pub open spec fn jsonl_rows(lines: Seq<Seq<char>>) -> Result<Seq<RowModel>, ErrModel>
    decreases lines.len(),
{
    if lines.len() == 0 {
        Ok(Seq::empty())
    } else {
        let t = trim_spec(lines[0]);
        if t.len() == 0 {
            jsonl_rows(lines.drop_first())
        } else {
            match json_doc(t) {
                DocModel::Single(fs) => match jsonl_rows(lines.drop_first()) {
                    Ok(rest) => Ok(seq![RowModel::Fields(fs)] + rest),
                    Err(e) => Err(e),
                },
                DocModel::Malformed(m) => Err(ErrModel::InvalidJson(m)),
                _ => Err(ErrModel::UnexpectedShape),
            }
        }
    }
}

/// What parsing an input text yields: the rows of a top-level array as they
/// stand, a single top-level object as a one-row table, a shape error for
/// any other well-formed document, and the line-delimited reading only when
/// the whole text is not well-formed JSON.
pub open spec fn parse_spec(s: Seq<char>) -> Result<Seq<RowModel>, ErrModel> {
    match json_doc(s) {
        DocModel::Rows(rs) => Ok(rs),
        DocModel::Single(fs) => Ok(seq![RowModel::Fields(fs)]),
        DocModel::Scalar => Err(ErrModel::UnexpectedShape),
        DocModel::Malformed(_) => jsonl_rows(split_lines(s)),
    }
}

/// The model of a parse result.
pub open spec fn rows_result_model(r: Result<Vec<ParsedRow>, TableError>) -> Result<
    Seq<RowModel>,
    ErrModel,
> {
    match r {
        Ok(v) => Ok(v.deep_view()),
        Err(e) => Err(e@),
    }
}

/// Removes leading and trailing whitespace.
fn trimmed<'a>(s: &'a str) -> (r: &'a str)
    ensures
        r@ == trim_spec(s@),
{
    let n = s.unicode_len();
    let mut a: usize = 0;
    loop
        invariant
            0 <= a <= n,
            n == s@.len(),
            forall|i: int| 0 <= i < a ==> is_ws(s@[i]),
        ensures
            0 <= a <= n,
            forall|i: int| 0 <= i < a ==> is_ws(s@[i]),
            a < n ==> !is_ws(s@[a as int]),
        decreases n - a,
    {
        if a == n {
            break ;
        }
        if !char_is_whitespace(s.get_char(a)) {
            break ;
        }
        a = a + 1;
    }
    proof {
        lemma_ws_prefix_is(s@, a as int);
    }
    let mut b: usize = n;
    loop
        invariant
            a <= b <= n,
            n == s@.len(),
            forall|i: int| b <= i < n ==> is_ws(s@[i]),
        ensures
            a <= b <= n,
            forall|i: int| b <= i < n ==> is_ws(s@[i]),
            b > a ==> !is_ws(s@[b - 1]),
        decreases b,
    {
        if b == a {
            break ;
        }
        if !char_is_whitespace(s.get_char(b - 1)) {
            break ;
        }
        b = b - 1;
    }
    proof {
        let t = s@.skip(a as int);
        if b == a {
            lemma_ws_suffix_is(t, t.len() as int);
            assert(b == s@.len() - ws_suffix(t));
        } else {
            lemma_ws_suffix_is(t, n - b);
        }
        assert(trim_spec(s@) =~= s@.subrange(a as int, b as int));
    }
    s.substring_char(a, b)
}

/// Parses the input in line-delimited mode.
fn parse_jsonl(input: &str) -> (r: Result<Vec<ParsedRow>, TableError>)
    ensures
        rows_result_model(r) == jsonl_rows(split_lines(input@)),
{
    let n = input.unicode_len();
    let mut pos: usize = 0;
    let mut acc: Vec<ParsedRow> = Vec::new();
    proof {
        assert(input@.skip(0) =~= input@);
        assert(acc.deep_view() =~= Seq::<RowModel>::empty());
        if let Ok(rest) = jsonl_rows(split_lines(input@)) {
            assert(acc.deep_view() + rest =~= rest);
        }
    }
    while pos < n
        invariant
            0 <= pos <= n,
            n == input@.len(),
            jsonl_rows(split_lines(input@)) == (match jsonl_rows(
                split_lines(input@.skip(pos as int)),
            ) {
                Ok(rest) => Ok::<Seq<RowModel>, ErrModel>(acc.deep_view() + rest),
                Err(e) => Err::<Seq<RowModel>, ErrModel>(e),
            }),
        decreases n - pos,
    {
        let ghost rem = input@.skip(pos as int);
        let mut e: usize = pos;
        loop
            invariant
                pos <= e <= n,
                n == input@.len(),
                forall|i: int| pos <= i < e ==> input@[i] != '\n',
            ensures
                pos <= e <= n,
                forall|i: int| pos <= i < e ==> input@[i] != '\n',
                e < n ==> input@[e as int] == '\n',
            decreases n - e,
        {
            if e == n {
                break ;
            }
            if input.get_char(e) == '\n' {
                break ;
            }
            e = e + 1;
        }
        proof {
            lemma_until_newline_is(rem, e - pos);
            assert(rem.take(e - pos) =~= input@.subrange(pos as int, e as int));
            if e < n {
                assert(rem.skip(e - pos + 1) =~= input@.skip(e + 1 as int));
                assert(split_lines(rem) == seq![input@.subrange(pos as int, e as int)]
                    + split_lines(input@.skip(e + 1 as int)));
            } else {
                assert(rem =~= input@.subrange(pos as int, e as int));
                assert(split_lines(rem) =~= seq![input@.subrange(pos as int, e as int)]
                    + split_lines(Seq::<char>::empty()));
            }
        }
        let line = input.substring_char(pos, e);
        let next: usize = if e == n {
            n
        } else {
            e + 1
        };
        proof {
            if e == n {
                assert(input@.skip(next as int) =~= Seq::<char>::empty());
            }
            assert(split_lines(rem) == seq![line@] + split_lines(input@.skip(next as int)));
            assert((seq![line@] + split_lines(input@.skip(next as int))).drop_first()
                =~= split_lines(input@.skip(next as int)));
        }
        let t = trimmed(line);
        if t.is_empty() {
            pos = next;
        } else {
            let doc = parse_document(t);
            match doc {
                ParsedDoc::Single(fields) => {
                    let ghost fm = fields.deep_view();
                    let ghost pre = acc.deep_view();
                    acc.push(ParsedRow::Object(fields));
                    proof {
                        assert(acc.deep_view() =~= pre.push(RowModel::Fields(fm)));
                        assert(pre.push(RowModel::Fields(fm)) =~= pre + seq![
                            RowModel::Fields(fm),
                        ]);
                        if let Ok(rest) = jsonl_rows(split_lines(input@.skip(next as int))) {
                            assert(pre + (seq![RowModel::Fields(fm)] + rest) =~= acc.deep_view()
                                + rest);
                        }
                    }
                    pos = next;
                },
                ParsedDoc::Malformed(msg) => {
                    return Err(TableError::InvalidJson(msg));
                },
                ParsedDoc::Rows(_) => {
                    return Err(TableError::UnexpectedShape);
                },
                ParsedDoc::Scalar => {
                    return Err(TableError::UnexpectedShape);
                },
            }
        }
    }
    proof {
        assert(input@.skip(n as int) =~= Seq::<char>::empty());
        if let Ok(rest) = jsonl_rows(split_lines(input@.skip(n as int))) {
            assert(acc.deep_view() + rest =~= acc.deep_view());
        }
    }
    Ok(acc)
}

/// Parses raw input text into the table's rows. The whole text is first
/// tried as one JSON document: an array yields its elements as rows, an
/// object yields a one-row table, any other well-formed value is a shape
/// error. Only text that is not well-formed JSON is read line by line.
pub fn parse_json(input: &str) -> (r: Result<Vec<ParsedRow>, TableError>)
    ensures
        rows_result_model(r) == parse_spec(input@),
{
    let doc = parse_document(input);
    match doc {
        ParsedDoc::Rows(v) => Ok(v),
        ParsedDoc::Single(fields) => {
            let ghost fm = fields.deep_view();
            let mut v: Vec<ParsedRow> = Vec::new();
            v.push(ParsedRow::Object(fields));
            proof {
                assert(v.deep_view() =~= seq![RowModel::Fields(fm)]);
            }
            Ok(v)
        },
        ParsedDoc::Scalar => Err(TableError::UnexpectedShape),
        ParsedDoc::Malformed(_) => parse_jsonl(input),
    }
}

} // verus!
