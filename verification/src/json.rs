//! Reading the JSON text components that sign rows are stored as.
use vstd::prelude::*;
use serde_json::{Error, Value};

verus! {

#[verifier::external_type_specification]
#[verifier::external_body]
pub struct ExJsonValue(Value);

#[verifier::external_type_specification]
#[verifier::external_body]
pub struct ExJsonError(Error);

#[verifier::external_type_specification]
#[verifier::external_body]
#[verifier::reject_recursive_types(K)]
#[verifier::reject_recursive_types(V)]
pub struct ExJsonMap<K, V>(serde_json::Map<K, V>);

/// `serde_json::from_str::<Value>`: parses `s` as a JSON value. Nothing is stated of the
/// outcome: the value is opaque here, and whether `s` parses is not modeled.
#[verifier::external_body]
pub(crate) fn json_from_str(s: &str) -> Result<Value, Error> {
    serde_json::from_str(s)
}

/// `Value::as_object`: the map of a JSON object, `None` for other values. Nothing is
/// stated of the outcome: values are opaque here.
#[verifier::external_body]
pub(crate) fn json_as_object(v: &Value) -> Option<&serde_json::Map<String, Value>> {
    v.as_object()
}

/// `Map::get`: the member of a JSON object under `key`, if any. Nothing is stated of the
/// outcome: objects are opaque here.
#[verifier::external_body]
pub(crate) fn json_map_get<'a>(m: &'a serde_json::Map<String, Value>, key: &str) -> Option<&'a Value> {
    m.get(key)
}

/// `Value::as_str`: the text of a JSON string, `None` for other values. Nothing is
/// stated of the outcome: values are opaque here.
#[verifier::external_body]
pub(crate) fn json_as_str(v: &Value) -> Option<&str> {
    v.as_str()
}

} // verus!
