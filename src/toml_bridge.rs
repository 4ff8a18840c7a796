use vstd::prelude::*;
use crate::literal::{Literal, LitV};

verus! {

/// Declares `toml::Value`, which the conversions below take and return;
/// Verus sees nothing inside it.
#[verifier::external_type_specification]
#[verifier::external_body]
pub struct ExTomlValue(toml::Value);

/// The document that toml reads from this text, if it reads one.
pub uninterp spec fn toml_parse(doc: Seq<char>) -> Option<LitV>;

/// The text toml writes for a document of the single entry `key = value`,
/// if it can write one.
pub uninterp spec fn toml_document_text(key: Seq<char>, value: LitV) -> Option<Seq<char>>;

/// The TOML literal text of the number that `str::parse` reads from this
/// text as a 64-bit float, if it reads one.
pub uninterp spec fn float_text(s: Seq<char>) -> Option<Seq<char>>;

/// Copies a toml value into a `Literal`, variant for variant. Floats and
/// datetimes keep the text that toml's `Display` writes for them.
#[verifier::external_body]
fn literal_from_toml(v: toml::Value) -> Literal {
    match v {
        toml::Value::String(s) => Literal::Str(s),
        toml::Value::Integer(i) => Literal::Int(i),
        toml::Value::Float(x) => Literal::Float(toml::Value::Float(x).to_string()),
        toml::Value::Boolean(b) => Literal::Bool(b),
        toml::Value::Datetime(d) => Literal::Datetime(toml::Value::Datetime(d).to_string()),
        toml::Value::Array(items) => Literal::List(items.into_iter().map(literal_from_toml).collect()),
        toml::Value::Table(t) => Literal::Table(t.into_iter().map(|(k, v)| (k, literal_from_toml(v))).collect()),
    }
}

/// Copies a `Literal` into a toml value, variant for variant. Float and
/// datetime texts are read back with toml's `FromStr` for `toml::Value`.
#[verifier::external_body]
fn literal_to_toml(l: &Literal) -> Option<toml::Value> {
    match l {
        Literal::Str(s) => Some(toml::Value::String(s.clone())),
        Literal::Int(i) => Some(toml::Value::Integer(*i)),
        Literal::Float(t) | Literal::Datetime(t) => t.parse::<toml::Value>().ok(),
        Literal::Bool(b) => Some(toml::Value::Boolean(*b)),
        Literal::List(items) => items.iter().map(literal_to_toml).collect::<Option<_>>().map(toml::Value::Array),
        Literal::Table(es) => table_to_toml(es),
    }
}

/// Copies the entries of a table into a toml table, entry for entry.
#[verifier::external_body]
fn table_to_toml(es: &Vec<(String, Literal)>) -> Option<toml::Value> {
    let entries = es.iter().map(|(k, v)| literal_to_toml(v).map(|v| (k.clone(), v)));
    entries.collect::<Option<toml::map::Map<_, _>>>().map(toml::Value::Table)
}

/// Relies on `toml::from_str::<toml::Value>`: reads a TOML document; the
/// error is toml's message.
#[verifier::external_body]
pub(crate) fn parse_document(doc: &str) -> (r: Result<Literal, String>)
    ensures
        r is Ok <==> toml_parse(doc@) is Some,
        r matches Ok(v) ==> toml_parse(doc@) == Some(v@),
{
    toml::from_str::<toml::Value>(doc).map(literal_from_toml).map_err(|e| e.to_string())
}

/// Relies on `toml::to_string`: writes the document `key = value`; the error
/// is toml's message.
#[verifier::external_body]
pub(crate) fn render_document(key: &str, value: &Literal) -> (r: Result<String, String>)
    ensures
        r is Ok <==> toml_document_text(key@, value@) is Some,
        r matches Ok(t) ==> toml_document_text(key@, value@) == Some(t@),
{
    let v = literal_to_toml(value).ok_or_else(|| "value has no TOML form".to_string())?;
    let mut doc = toml::map::Map::new();
    doc.insert(key.to_string(), v);
    toml::to_string(&toml::Value::Table(doc)).map_err(|e| e.to_string())
}

/// Relies on `str::parse` for a 64-bit float and on toml's `Display` for
/// `toml::Value::Float`: the TOML literal text of the number read.
#[verifier::external_body]
pub(crate) fn parse_float_text(s: &str) -> (r: Option<String>)
    ensures
        r is Some <==> float_text(s@) is Some,
        r matches Some(t) ==> float_text(s@) == Some(t@),
{
    s.parse().ok().map(|x| toml::Value::Float(x).to_string())
}

} // verus!
