//! The library's own model of parsed JSON input, and the trusted boundary to
//! serde_json, which does the actual text-to-value parsing.
//!
//! The renderer only ever reads a bounded part of a JSON document: the shape
//! of the top-level value, the key/value pairs of each row object, and, of
//! each cell value, its variant, its scalar text, or the size of its nested
//! collection. `CellValue`, `ParsedRow` and `ParsedDoc` hold exactly that as
//! plain values, so that everything downstream of the parse is verified.

use vstd::prelude::*;

verus! {

/// What one cell of the table holds: a JSON value as far as the renderer
/// reads it. A nested array or object appears only through its size.
#[derive(Debug)]
pub enum CellValue {
    Null,
    Bool(bool),
    /// The number's decimal text, exactly as the JSON parser prints it.
    Number(String),
    Text(String),
    /// An array of so many elements.
    Array(usize),
    /// An object of so many keys.
    Object(usize),
}

/// One element of a top-level JSON array: either a row object with its fields
/// in the order the parser yields them, or some non-object value, which
/// contributes an empty row to the table.
#[derive(Debug)]
pub enum ParsedRow {
    Object(Vec<(String, CellValue)>),
    Other,
}

/// The outcome of parsing a whole input text as one JSON document.
#[derive(Debug)]
pub enum ParsedDoc {
    /// A top-level array, one entry per element.
    Rows(Vec<ParsedRow>),
    /// A single top-level object.
    Single(Vec<(String, CellValue)>),
    /// Well-formed JSON whose top-level value is neither array nor object.
    Scalar,
    /// Not well-formed JSON; carries the parser's diagnostic.
    Malformed(String),
}

/// Mathematical model of a `CellValue`.
pub enum CellModel {
    Null,
    Bool(bool),
    Number(Seq<char>),
    Text(Seq<char>),
    Array(nat),
    Object(nat),
}

/// Mathematical model of a `ParsedRow`.
pub enum RowModel {
    Fields(Seq<(Seq<char>, CellModel)>),
    Scalar,
}

/// Mathematical model of a `ParsedDoc`.
pub enum DocModel {
    Rows(Seq<RowModel>),
    Single(Seq<(Seq<char>, CellModel)>),
    Scalar,
    Malformed(Seq<char>),
}

impl View for CellValue {
    type V = CellModel;

    open spec fn view(&self) -> CellModel {
        match self {
            CellValue::Null => CellModel::Null,
            CellValue::Bool(b) => CellModel::Bool(*b),
            CellValue::Number(t) => CellModel::Number(t@),
            CellValue::Text(t) => CellModel::Text(t@),
            CellValue::Array(n) => CellModel::Array(*n as nat),
            CellValue::Object(n) => CellModel::Object(*n as nat),
        }
    }
}

impl DeepView for CellValue {
    type V = CellModel;

    open spec fn deep_view(&self) -> CellModel {
        self.view()
    }
}

impl View for ParsedRow {
    type V = RowModel;

    open spec fn view(&self) -> RowModel {
        match self {
            ParsedRow::Object(fields) => RowModel::Fields(fields.deep_view()),
            ParsedRow::Other => RowModel::Scalar,
        }
    }
}

impl DeepView for ParsedRow {
    type V = RowModel;

    open spec fn deep_view(&self) -> RowModel {
        self.view()
    }
}

impl View for ParsedDoc {
    type V = DocModel;

    open spec fn view(&self) -> DocModel {
        match self {
            ParsedDoc::Rows(rows) => DocModel::Rows(rows.deep_view()),
            ParsedDoc::Single(fields) => DocModel::Single(fields.deep_view()),
            ParsedDoc::Scalar => DocModel::Scalar,
            ParsedDoc::Malformed(msg) => DocModel::Malformed(msg@),
        }
    }
}

#[verifier::external_type_specification]
#[verifier::external_body]
pub struct ExJsonValue(serde_json::Value);

#[verifier::external_type_specification]
#[verifier::external_body]
#[verifier::reject_recursive_types(K)]
#[verifier::reject_recursive_types(V)]
pub struct ExJsonMap<K, V>(serde_json::Map<K, V>);

/// What `serde_json::from_str::<serde_json::Value>` makes of a text, read
/// down to the depth the renderer uses. Parsing is deterministic: the result
/// depends on the text alone.
pub uninterp spec fn json_doc(s: Seq<char>) -> DocModel;

/// Relies on the variants of serde_json::Value: copies one cell value's
/// variant, scalar text (numbers through serde_json::Number's decimal
/// rendering) or nested size, nothing else.
#[verifier::external_body]
fn convert_cell(v: &serde_json::Value) -> CellValue {
    match v {
        serde_json::Value::Null => CellValue::Null,
        serde_json::Value::Bool(b) => CellValue::Bool(*b),
        serde_json::Value::Number(n) => CellValue::Number(n.to_string()),
        serde_json::Value::String(s) => CellValue::Text(s.clone()),
        serde_json::Value::Array(a) => CellValue::Array(a.len()),
        serde_json::Value::Object(o) => CellValue::Object(o.len()),
    }
}

/// Relies on serde_json::Map::iter: copies an object's key/value pairs in the
/// order the map yields them — first-appearance order of the keys in the
/// text, since the map keeps insertion order here.
#[verifier::external_body]
fn convert_fields(m: &serde_json::Map<String, serde_json::Value>) -> Vec<(String, CellValue)> {
    m.iter().map(|(k, v)| (k.clone(), convert_cell(v))).collect()
}

/// Relies on the variants of serde_json::Value: tells a row object apart from
/// any other array element.
#[verifier::external_body]
fn convert_row(v: &serde_json::Value) -> ParsedRow {
    match v {
        serde_json::Value::Object(m) => ParsedRow::Object(convert_fields(m)),
        _ => ParsedRow::Other,
    }
}

/// Relies on serde_json::from_str::<serde_json::Value>: parses one text as a
/// whole JSON document; `Err` carries the parser's diagnostic. The result is
/// a function of the text alone, named by `json_doc`.
#[verifier::external_body]
pub fn parse_document(s: &str) -> (r: ParsedDoc)
    ensures
        r@ == json_doc(s@),
{
    match serde_json::from_str::<serde_json::Value>(s) {
        Ok(serde_json::Value::Array(a)) => ParsedDoc::Rows(a.iter().map(convert_row).collect()),
        Ok(serde_json::Value::Object(m)) => ParsedDoc::Single(convert_fields(&m)),
        Ok(_) => ParsedDoc::Scalar,
        Err(e) => ParsedDoc::Malformed(e.to_string()),
    }
}

} // verus!
