//! The JSON values that the conversation model carries through: a custom
//! turn's body and a tool's parameter schema. They stay `serde_json` values;
//! the library sees an object as a map from key to value.
use vstd::prelude::*;

verus! {

#[verifier::external_type_specification]
#[verifier::external_body]
pub struct ExJsonValue(serde_json::Value);

#[verifier::external_type_specification]
#[verifier::external_body]
#[verifier::reject_recursive_types(K)]
#[verifier::reject_recursive_types(V)]
pub struct ExJsonMap<K, V>(serde_json::Map<K, V>);

/// The entries of a JSON object, by key.
pub uninterp spec fn object_entries(m: serde_json::Map<String, serde_json::Value>) -> Map<Seq<char>, serde_json::Value>;

/// The entries of `v` when it is a JSON object, `None` for any other value.
pub uninterp spec fn value_object(v: serde_json::Value) -> Option<Map<Seq<char>, serde_json::Value>>;

/// The entries of an empty object.
pub open spec fn no_entries() -> Map<Seq<char>, serde_json::Value> {
    Map::empty()
}

/// Relies on `Clone for serde_json::Map<String, Value>`: the copy has the
/// same entries.
pub assume_specification[ <serde_json::Map<String, serde_json::Value> as Clone>::clone ](
    m: &serde_json::Map<String, serde_json::Value>,
) -> (r: serde_json::Map<String, serde_json::Value>)
    ensures
        object_entries(r) == object_entries(*m),
;

/// Relies on the derived `Clone for serde_json::Value`: the copy is an object
/// exactly when the value it copies is, with the same entries.
pub assume_specification[ <serde_json::Value as Clone>::clone ](v: &serde_json::Value) -> (r: serde_json::Value)
    ensures
        value_object(r) == value_object(*v),
;

/// Relies on `serde_json::Map::new`: an empty object.
pub assume_specification[ serde_json::Map::<String, serde_json::Value>::new ]() -> (r: serde_json::Map<String, serde_json::Value>)
    ensures
        object_entries(r) == no_entries(),
;

/// Relies on `serde_json::Map::remove`: the key is gone afterwards, the other
/// entries stay, and the removed value is returned exactly when the key was
/// there.
#[verifier::external_body]
pub(crate) fn remove_key(m: &mut serde_json::Map<String, serde_json::Value>, key: &str) -> (r: Option<serde_json::Value>)
    ensures
        object_entries(*final(m)) == object_entries(*old(m)).remove(key@),
        r is Some == object_entries(*old(m)).contains_key(key@),
        r is Some ==> r->Some_0 == object_entries(*old(m))[key@],
{
    m.remove(key)
}

/// Relies on `Extend<(String, Value)> for serde_json::Map` (inserting each
/// entry of a copy of `extra` in turn): the entries of `extra` are added,
/// replacing those with the same key.
#[verifier::external_body]
pub(crate) fn extend_object(m: &mut serde_json::Map<String, serde_json::Value>, extra: &serde_json::Map<String, serde_json::Value>)
    ensures
        object_entries(*final(m)) == object_entries(*old(m)).union_prefer_right(object_entries(*extra)),
{
    m.extend(extra.clone())
}

/// Relies on `serde_json::Value::Object`: an object value hands out its map,
/// with the same entries; any other value is handed back.
#[verifier::external_body]
pub(crate) fn into_object(v: serde_json::Value) -> (r: Result<serde_json::Map<String, serde_json::Value>, serde_json::Value>)
    ensures
        r is Ok == value_object(v) is Some,
        r is Ok ==> Some(object_entries(r->Ok_0)) == value_object(v),
        r is Err ==> r->Err_0 == v,
{
    match v {
        serde_json::Value::Object(m) => Ok(m),
        other => Err(other),
    }
}

/// Relies on `serde_json::Value::Object`: the value is the object holding
/// the map.
#[verifier::external_body]
pub(crate) fn object_value(m: serde_json::Map<String, serde_json::Value>) -> (r: serde_json::Value)
    ensures
        value_object(r) == Some(object_entries(m)),
{
    serde_json::Value::Object(m)
}

} // verus!
