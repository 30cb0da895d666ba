use crate::val::Val;
use std::error::Error;
use vstd::prelude::*;

verus! {

// The document lexer, the JSON and YAML decoders and the file reads are
// outside collaborators: the declarations and wrappers below are what this
// library assumes of them.

#[verifier::external_type_specification]
#[verifier::external_body]
pub struct ExTomlValue(toml::Value);

#[verifier::external_type_specification]
#[verifier::external_body]
pub struct ExJsonValue(serde_json::Value);

#[verifier::external_type_specification]
#[verifier::external_body]
pub struct ExYamlValue(serde_yaml::Value);

/// Relies on toml::Value::as_bool: the boolean payload, if this is a boolean.
#[verifier::external_body]
pub(crate) fn toml_as_bool(v: &toml::Value) -> (r: Option<bool>) {
    v.as_bool()
}

/// Relies on toml::Value::as_integer: the integer payload, if this is an integer.
#[verifier::external_body]
pub(crate) fn toml_as_int(v: &toml::Value) -> (r: Option<i64>) {
    v.as_integer()
}

/// Relies on toml::Value::as_float: the bit pattern of the float payload,
/// if this is a float.
#[verifier::external_body]
pub(crate) fn toml_float_bits(v: &toml::Value) -> (r: Option<u64>) {
    v.as_float().map(|x| x.to_bits())
}

/// Relies on toml::Value::as_str: the string payload, if this is a string.
#[verifier::external_body]
pub(crate) fn toml_as_str(v: &toml::Value) -> (r: Option<String>) {
    v.as_str().map(|s| s.to_owned())
}

/// Relies on toml::Value::as_array: the elements, in order, if this is an array.
#[verifier::external_body]
pub(crate) fn toml_as_array(v: &toml::Value) -> (r: Option<Vec<toml::Value>>) {
    v.as_array().cloned()
}

/// Relies on toml::Value::as_table and toml::map::Map::iter: the entries,
/// in file order, if this is a table.
#[verifier::external_body]
pub(crate) fn toml_table_entries(v: &toml::Value) -> (r: Option<Vec<(String, toml::Value)>>) {
    v.as_table().map(|t| t.iter().map(|(k, val)| (k.clone(), val.clone())).collect())
}

/// Relies on serde_json::Value::as_bool.
#[verifier::external_body]
pub(crate) fn json_as_bool(v: &serde_json::Value) -> (r: Option<bool>) {
    v.as_bool()
}

/// Relies on serde_json::Value::as_i64.
#[verifier::external_body]
pub(crate) fn json_as_int(v: &serde_json::Value) -> (r: Option<i64>) {
    v.as_i64()
}

/// Relies on serde_json::Value::as_f64: the bit pattern of the number seen
/// as a 64-bit float.
#[verifier::external_body]
pub(crate) fn json_float_bits(v: &serde_json::Value) -> (r: Option<u64>) {
    v.as_f64().map(|x| x.to_bits())
}

/// Relies on serde_json::Value::as_str.
#[verifier::external_body]
pub(crate) fn json_as_str(v: &serde_json::Value) -> (r: Option<String>) {
    v.as_str().map(|s| s.to_owned())
}

/// Relies on serde_json::Value::as_array.
#[verifier::external_body]
pub(crate) fn json_as_array(v: &serde_json::Value) -> (r: Option<Vec<serde_json::Value>>) {
    v.as_array().cloned()
}

/// Relies on serde_json::Value::as_object and serde_json::Map::iter: the
/// entries of the object.
#[verifier::external_body]
pub(crate) fn json_object_entries(v: &serde_json::Value) -> (r: Option<
    Vec<(String, serde_json::Value)>,
>) {
    v.as_object().map(|m| m.iter().map(|(k, val)| (k.clone(), val.clone())).collect())
}

/// What a 64-bit float literal denotes: the IEEE-754 bit pattern that the
/// decimal text converts to, a function of the text alone, or nothing where
/// the text is not a strict JSON number.
pub uninterp spec fn float_bits_of(s: Seq<char>) -> Option<u64>;

/// Relies on serde_json::from_str::<serde_json::Value> and
/// serde_json::Value::as_f64: the 64-bit float value of a standalone JSON
/// number text, a function of the text alone.
#[verifier::external_body]
pub(crate) fn parse_float_bits(s: &str) -> (r: Option<u64>)
    ensures
        r == float_bits_of(s@),
{
    serde_json::from_str::<serde_json::Value>(s).ok().and_then(|v| v.as_f64()).map(|x| x.to_bits())
}

/// Relies on serde_yaml::Value::as_bool.
#[verifier::external_body]
pub(crate) fn yaml_as_bool(v: &serde_yaml::Value) -> (r: Option<bool>) {
    v.as_bool()
}

/// Relies on serde_yaml::Value::as_i64.
#[verifier::external_body]
pub(crate) fn yaml_as_int(v: &serde_yaml::Value) -> (r: Option<i64>) {
    v.as_i64()
}

/// Relies on serde_yaml::Value::as_f64: the bit pattern of the number seen
/// as a 64-bit float.
#[verifier::external_body]
pub(crate) fn yaml_float_bits(v: &serde_yaml::Value) -> (r: Option<u64>) {
    v.as_f64().map(|x| x.to_bits())
}

/// Relies on serde_yaml::Value::as_str.
#[verifier::external_body]
pub(crate) fn yaml_as_str(v: &serde_yaml::Value) -> (r: Option<String>) {
    v.as_str().map(|s| s.to_owned())
}

/// Relies on serde_yaml::Value::as_sequence.
#[verifier::external_body]
pub(crate) fn yaml_as_sequence(v: &serde_yaml::Value) -> (r: Option<Vec<serde_yaml::Value>>) {
    v.as_sequence().cloned()
}

/// Relies on serde_yaml::Value::as_mapping and serde_yaml::Mapping::iter:
/// the entries of the mapping, keys still undecoded.
#[verifier::external_body]
pub(crate) fn yaml_mapping_entries(v: &serde_yaml::Value) -> (r: Option<
    Vec<(serde_yaml::Value, serde_yaml::Value)>,
>) {
    v.as_mapping().map(|m| m.iter().map(|(k, val)| (k.clone(), val.clone())).collect())
}

/// What reading a file gave: its text, or that it was missing, or another
/// failure; the payload of the last two is the underlying reason.
pub enum ReadOutcome {
    Content(String),
    Missing(String),
    Failed(String),
}

/// Relies on fs_err::read_to_string: the text of the file at `path`, with
/// the original I/O error preserved behind the wrapped one; a missing file
/// is told apart by its error kind.
#[verifier::external_body]
pub(crate) fn read_text_file(path: &str) -> (r: ReadOutcome) {
    match fs_err::read_to_string(path) {
        Ok(s) => ReadOutcome::Content(s),
        Err(e) => {
            let reason = match e.get_ref().and_then(|inner| inner.source()) {
                Some(src) => src.to_string(),
                None => e.to_string(),
            };
            if e.kind() == std::io::ErrorKind::NotFound {
                ReadOutcome::Missing(reason)
            } else {
                ReadOutcome::Failed(reason)
            }
        },
    }
}

/// What the document text decodes to: each top-level table in file order,
/// its entries in file order, every value in the value model; or nothing
/// where the text is malformed, a section is not a table, a value is a
/// datetime, or nesting exceeds the conversion depth.  A function of the
/// text alone.
pub uninterp spec fn toml_doc_of(s: Seq<char>) -> Option<Vec<(String, Vec<(String, Val)>)>>;

/// Relies on toml::from_str::<toml::Table> and toml::Value::as_table (with
/// preserve_order, iteration is file order); values convert through the
/// verified `val_of_toml`.  The outcome is a function of the text alone.
#[verifier::external_body]
pub(crate) fn toml_parse_doc(src: &str) -> (r: Result<Vec<(String, Vec<(String, Val)>)>, String>)
    ensures
        (r is Ok) == (toml_doc_of(src@) is Some),
        r matches Ok(d) ==> Some(d) == toml_doc_of(src@),
{
    let table = match toml::from_str::<toml::Table>(src) {
        Ok(t) => t,
        Err(e) => return Err(e.to_string()),
    };
    table.into_iter().map(|(name, v)| match v.as_table() {
        None => Err(format!("Expected a table for section {name}")),
        Some(es) => es.iter().map(
            |(k, x)| crate::config::val_of_toml(x, crate::config::MAX_VALUE_DEPTH).map(|val| (k.clone(), val)),
        ).collect::<Result<Vec<(String, Val)>, String>>().map(|vals| (name, vals)),
    }).collect::<Result<Vec<(String, Vec<(String, Val)>)>, String>>()
}

/// What a JSON text decodes to in the value model, dictionaries in
/// canonical key order; or nothing where it is malformed or too deep.  A
/// function of the text alone.
pub uninterp spec fn json_val_of(s: Seq<char>) -> Option<Val>;

/// Relies on serde_json::from_str::<serde_json::Value>; the decoded value
/// converts through the verified `val_of_json`.  A function of the text
/// alone.
#[verifier::external_body]
pub(crate) fn json_decode_val(src: &str) -> (r: Result<Val, String>)
    ensures
        (r is Ok) == (json_val_of(src@) is Some),
        r matches Ok(v) ==> Some(v) == json_val_of(src@),
{
    match serde_json::from_str::<serde_json::Value>(src) {
        Ok(v) => crate::reader::val_of_json(&v, crate::config::MAX_VALUE_DEPTH),
        Err(e) => Err(e.to_string()),
    }
}

/// What a YAML text decodes to in the value model, dictionaries in
/// canonical key order; or nothing where it is malformed, too deep, or
/// keyed by non-strings.  A function of the text alone.
pub uninterp spec fn yaml_val_of(s: Seq<char>) -> Option<Val>;

/// Relies on serde_yaml::from_str::<serde_yaml::Value>; the decoded value
/// converts through the verified `val_of_yaml`.  A function of the text
/// alone.
#[verifier::external_body]
pub(crate) fn yaml_decode_val(src: &str) -> (r: Result<Val, String>)
    ensures
        (r is Ok) == (yaml_val_of(src@) is Some),
        r matches Ok(v) ==> Some(v) == yaml_val_of(src@),
{
    match serde_yaml::from_str::<serde_yaml::Value>(src) {
        Ok(v) => crate::reader::val_of_yaml(&v, crate::config::MAX_VALUE_DEPTH),
        Err(e) => Err(e.to_string()),
    }
}

} // verus!
