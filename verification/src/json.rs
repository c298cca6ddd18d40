//! The JSON boundary: thin trusted wrappers around `serde_json`. Each
//! wrapper only makes one library call (plus a one-for-one conversion of
//! its result). What each call computes depends on its argument alone, so
//! each outcome is given a name (an uninterpreted spec function) that the
//! wrapper's contract applies; every decision taken on a parsed document is
//! then made, and verified, in this crate's own code against those names.

use vstd::prelude::*;

verus! {

#[verifier::external_type_specification]
#[verifier::external_body]
pub struct ExValue(serde_json::Value);

#[verifier::external_type_specification]
#[verifier::external_body]
#[verifier::reject_recursive_types(K)]
#[verifier::reject_recursive_types(V)]
pub struct ExJsonMap<K, V>(serde_json::Map<K, V>);

#[verifier::external_type_specification]
#[verifier::external_body]
pub struct ExJsonError(serde_json::Error);

/// The document that a text decodes to, or `None` where the text is not
/// well-formed JSON; determined by the text alone.
pub uninterp spec fn json_doc_of(s: Seq<char>) -> Option<serde_json::Value>;

/// The object form of a JSON value, or `None` where it is not an object.
pub uninterp spec fn obj_of(v: serde_json::Value) -> Option<
    serde_json::Map<String, serde_json::Value>,
>;

/// The member a JSON object stores under a key, if any.
pub uninterp spec fn member_of(
    m: serde_json::Map<String, serde_json::Value>,
    key: Seq<char>,
) -> Option<serde_json::Value>;

/// What a JSON object holds: its members as key/value pairs, in the
/// object's own (deterministic, key-ordered) iteration order.
pub uninterp spec fn obj_entries(m: serde_json::Map<String, serde_json::Value>) -> Seq<
    (Seq<char>, serde_json::Value),
>;

/// The text of a JSON value, or `None` where it is not a string.
pub uninterp spec fn str_of(v: serde_json::Value) -> Option<Seq<char>>;

/// Relies on serde_json::from_str: decodes JSON text into a document tree,
/// or reports a syntax error; the outcome is a function of the text alone.
#[verifier::external_body]
pub(crate) fn parse_json_text(s: &str) -> (r: Result<serde_json::Value, serde_json::Error>)
    ensures
        (match r {
            Ok(v) => json_doc_of(s@) == Some(v),
            Err(_) => json_doc_of(s@) is None,
        }),
{
    serde_json::from_str(s)
}

/// Relies on serde_json::Value::as_object: the value's object form, if it
/// is an object.
#[verifier::external_body]
pub(crate) fn value_as_object(v: &serde_json::Value) -> (r: Option<
    &serde_json::Map<String, serde_json::Value>,
>)
    ensures
        (match r {
            Some(m) => obj_of(*v) == Some(*m),
            None => obj_of(*v) is None,
        }),
{
    v.as_object()
}

/// Relies on serde_json::Map::get: the member stored under the key, if any.
#[verifier::external_body]
pub(crate) fn object_get<'a>(
    m: &'a serde_json::Map<String, serde_json::Value>,
    key: &str,
) -> (r: Option<&'a serde_json::Value>)
    ensures
        (match r {
            Some(v) => member_of(*m, key@) == Some(*v),
            None => member_of(*m, key@) is None,
        }),
{
    m.get(key)
}

/// Relies on serde_json::Map::iter: hands the object's members out as
/// owned pairs, in the object's own iteration order.
#[verifier::external_body]
pub(crate) fn object_entries(m: &serde_json::Map<String, serde_json::Value>) -> (r: Vec<
    (String, serde_json::Value),
>)
    ensures
        r@.len() == obj_entries(*m).len(),
        forall|i: int|
            0 <= i < r@.len() ==> (#[trigger] r@[i]).0@ == obj_entries(*m)[i].0 && r@[i].1
                == obj_entries(*m)[i].1,
{
    m.iter().map(|(k, v)| (k.clone(), v.clone())).collect()
}

/// Relies on serde_json::Value::as_str: the value's text, if it is a
/// string.
#[verifier::external_body]
pub(crate) fn value_as_str(v: &serde_json::Value) -> (r: Option<&str>)
    ensures
        (match r {
            Some(t) => str_of(*v) == Some(t@),
            None => str_of(*v) is None,
        }),
{
    v.as_str()
}

} // verus!
