//! Address search service (`GET /v2/address/search`).

use crate::error::{Error, ErrorView};
use crate::json;
use crate::query;
use crate::query::Query;
use crate::transport::{Method, OnClientError, RequestOpts, RequestView};
use vstd::prelude::*;

verus! {

/// An address search.
pub open spec fn search_request(q: Seq<(Seq<char>, Seq<char>)>) -> RequestView {
    RequestView {
        method: Method::Get,
        path: "/v2/address/search"@,
        query: q.filter(query::has_value()),
        body: None,
        on_client_error: OnClientError::Throw,
        empty: Seq::empty(),
    }
}

/// Address search service.
#[derive(Debug, Clone, Copy)]
pub struct AddressApi {}

impl AddressApi {
    pub fn new() -> (r: Self)
        ensures
            r == (AddressApi {  }),
    {
        AddressApi {  }
    }

    /// Address autocomplete and place search.
    pub fn search(&self, q: &Query) -> (r: RequestOpts)
        ensures
            r@ == search_request(q@),
    {
        let empty: Vec<u8> = Vec::new();
        assert(empty@ =~= Seq::<u8>::empty());
        RequestOpts {
            method: Method::Get,
            path: "/v2/address/search".to_owned(),
            query: q.query_pairs(),
            body: None,
            on_client_error: OnClientError::Throw,
            empty,
        }
    }
}

/// Reads the document in a reply.
pub fn decode_document(raw: &[u8]) -> (r: Result<serde_json::Value, Error>)
    ensures
        match json::document(raw@) {
            Ok(v) => r == Ok::<serde_json::Value, Error>(v),
            Err(e) => r is Err && r->Err_0@ == ErrorView::Json(e),
        },
{
    match json::parse_document(raw) {
        Ok(v) => Ok(v),
        Err(e) => Err(Error::Json(e)),
    }
}

} // verus!
