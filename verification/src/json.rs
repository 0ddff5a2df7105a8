//! JSON documents.

use vstd::prelude::*;

verus! {

/// `serde_json::Value`.
#[verifier::external_type_specification]
#[verifier::external_body]
pub struct ExValue(serde_json::Value);

/// What `serde_json::from_slice` reads as a document, or the text of its error.
pub uninterp spec fn document(raw: Seq<u8>) -> Result<serde_json::Value, Seq<char>>;

/// What `serde_json::from_slice` reads as an array of documents: nothing where it refuses.
pub uninterp spec fn documents(raw: Seq<u8>) -> Option<Seq<serde_json::Value>>;

/// What `serde_json::Value::is_null` says.
pub uninterp spec fn is_null(v: serde_json::Value) -> bool;

/// `serde_json::from_slice` into one document, with the error as its text.
#[verifier::external_body]
pub(crate) fn parse_document(raw: &[u8]) -> (r: Result<serde_json::Value, String>)
    ensures
        match document(raw@) {
            Ok(v) => r == Ok::<serde_json::Value, String>(v),
            Err(e) => r is Err && r->Err_0@ == e,
        },
{
    match serde_json::from_slice::<serde_json::Value>(raw) {
        Ok(v) => Ok(v),
        Err(e) => Err(e.to_string()),
    }
}

/// `serde_json::from_slice` into an array of documents; a refusal carries nothing. The text `[]`
/// reads as an array without elements.
#[verifier::external_body]
pub(crate) fn parse_documents(raw: &[u8]) -> (r: Option<Vec<serde_json::Value>>)
    ensures
        match documents(raw@) {
            Some(v) => r is Some && r->0@ == v,
            None => r is None,
        },
        raw@ == seq![0x5Bu8, 0x5D] ==> r is Some && r->0@ == Seq::<serde_json::Value>::empty(),
{
    match serde_json::from_slice::<Vec<serde_json::Value>>(raw) {
        Ok(v) => Some(v),
        Err(_) => None,
    }
}

/// `serde_json::Value::is_null`.
#[verifier::external_body]
pub(crate) fn check_null(v: &serde_json::Value) -> (r: bool)
    ensures
        r == is_null(*v),
{
    v.is_null()
}

/// `serde_json::Value::Null`, which is null.
#[verifier::external_body]
pub(crate) fn null_document() -> (r: serde_json::Value)
    ensures
        is_null(r),
{
    serde_json::Value::Null
}

} // verus!
