//! The value tree of one TOML document, and the trusted boundary to the
//! TOML parser.

use vstd::prelude::*;

verus! {

/// One value of a parsed TOML document. Strings, integers, booleans, arrays
/// and tables are carried as plain values; a table keeps its entries in the
/// order the parser hands them out. Value kinds that this crate's input
/// schema never accepts (floats, datetimes) are kept only as `Other`.
pub enum TomlVal {
    Str(String),
    Integer(i64),
    Boolean(bool),
    Arr(Vec<TomlVal>),
    Tab(Vec<(String, TomlVal)>),
    Other,
}

#[verifier::external_type_specification]
#[verifier::external_body]
pub struct ExTomlValue(toml::Value);

/// The value tree that the TOML parser yields for a document, or `None`
/// where the document is not valid TOML. The parse result is a function of
/// the document text alone.
pub uninterp spec fn toml_doc_of(s: Seq<char>) -> Option<TomlVal>;

/// Relies on toml::Value: one variant for each TOML value kind; arrays and
/// tables are carried over element by element, tables in iteration order.
#[verifier::external_body]
fn toml_value_tree(v: toml::Value) -> TomlVal {
    match v {
        toml::Value::String(s) => TomlVal::Str(s),
        toml::Value::Integer(i) => TomlVal::Integer(i),
        toml::Value::Float(_) => TomlVal::Other,
        toml::Value::Boolean(b) => TomlVal::Boolean(b),
        toml::Value::Datetime(_) => TomlVal::Other,
        toml::Value::Array(a) => TomlVal::Arr(a.into_iter().map(toml_value_tree).collect()),
        toml::Value::Table(t) => TomlVal::Tab(
            t.into_iter().map(|(k, w)| (k, toml_value_tree(w))).collect(),
        ),
    }
}

/// Relies on toml::from_str: parses one TOML document, or reports the
/// parser's error text.
#[verifier::external_body]
pub fn parse_toml_str(s: &str) -> (r: Result<TomlVal, String>)
    ensures
        r is Ok <==> toml_doc_of(s@) is Some,
        r is Ok ==> r->Ok_0 == toml_doc_of(s@)->Some_0,
{
    match toml::from_str::<toml::Value>(s) {
        Ok(v) => Ok(toml_value_tree(v)),
        Err(e) => Err(e.to_string()),
    }
}

} // verus!
