//! Routing service (`/v2/route*`).

use crate::address::decode_document;
use crate::error::{Error, ErrorView};
use crate::json;
use crate::transport;
use crate::transport::{new_request, BodyView, Method, RequestBody, RequestOpts};
use vstd::prelude::*;

verus! {

/// Routing service.
#[derive(Debug, Clone, Copy)]
pub struct RoutingApi {}

impl RoutingApi {
    pub fn new() -> (r: Self)
        ensures
            r == (RoutingApi {  }),
    {
        RoutingApi {  }
    }

    fn post(&self, path: &str, body: serde_json::Value) -> (r: RequestOpts)
        ensures
            r@ == transport::plain_request(Method::Post, path@, Some(BodyView::Json(body))),
    {
        new_request(Method::Post, path, Some(RequestBody::Json(body)))
    }

    /// Computes a route.
    pub fn route(&self, body: serde_json::Value) -> (r: RequestOpts)
        ensures
            r@ == transport::plain_request(
                Method::Post,
                "/v2/route"@,
                Some(BodyView::Json(body)),
            ),
    {
        self.post("/v2/route", body)
    }

    /// Optimized multi-stop route.
    pub fn optimized(&self, body: serde_json::Value) -> (r: RequestOpts)
        ensures
            r@ == transport::plain_request(
                Method::Post,
                "/v2/route/optimized"@,
                Some(BodyView::Json(body)),
            ),
    {
        self.post("/v2/route/optimized", body)
    }

    /// Time/distance matrix.
    pub fn matrix(&self, body: serde_json::Value) -> (r: RequestOpts)
        ensures
            r@ == transport::plain_request(
                Method::Post,
                "/v2/route/matrix"@,
                Some(BodyView::Json(body)),
            ),
    {
        self.post("/v2/route/matrix", body)
    }

    /// Snap / locate.
    pub fn locate(&self, body: serde_json::Value) -> (r: RequestOpts)
        ensures
            r@ == transport::plain_request(
                Method::Post,
                "/v2/route/locate"@,
                Some(BodyView::Json(body)),
            ),
    {
        self.post("/v2/route/locate", body)
    }

    /// Elevation along a path.
    pub fn elevation(&self, body: serde_json::Value) -> (r: RequestOpts)
        ensures
            r@ == transport::plain_request(
                Method::Post,
                "/v2/route/elevation"@,
                Some(BodyView::Json(body)),
            ),
    {
        self.post("/v2/route/elevation", body)
    }
}

/// Reads the document in a reply; an empty reply is null.
pub fn decode_reply(raw: &[u8]) -> (r: Result<serde_json::Value, Error>)
    ensures
        raw@.len() == 0 ==> r is Ok && json::is_null(r->Ok_0),
        raw@.len() > 0 ==> match json::document(raw@) {
            Ok(v) => r == Ok::<serde_json::Value, Error>(v),
            Err(e) => r is Err && r->Err_0@ == ErrorView::Json(e),
        },
{
    if raw.len() == 0 {
        return Ok(json::null_document());
    }
    decode_document(raw)
}

} // verus!
