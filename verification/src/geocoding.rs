//! Geocoding service (`/v2/geocode/*`, `/v2/address/lookup`).

use crate::batch;
use crate::batch::Batch;
use crate::clock::Nanos;
use crate::error::{Error, ErrorView};
use crate::json;
use crate::query;
use crate::query::Query;
use crate::transport;
use crate::transport::{Method, OnClientError, RequestOpts, RequestView};
use vstd::prelude::*;

verus! {

/// Geocoding service.
#[derive(Debug, Clone, Copy)]
pub struct GeocodingApi {
    concurrency: usize,
}

/// A lookup, which gives an empty result on a 4xx that is no auth failure.
pub open spec fn lookup_request(
    path: Seq<char>,
    q: Seq<(Seq<char>, Seq<char>)>,
    on_client_error: OnClientError,
    empty: Seq<u8>,
) -> RequestView {
    RequestView {
        method: Method::Get,
        path,
        query: q.filter(query::has_value()),
        body: None,
        on_client_error,
        empty,
    }
}

/// `[]`.
pub open spec fn empty_array() -> Seq<u8> {
    seq![0x5Bu8, 0x5D]
}

/// `null`.
pub open spec fn null_text() -> Seq<u8> {
    seq![0x6Eu8, 0x75, 0x6C, 0x6C]
}

fn new_lookup(
    path: &str,
    q: &Query,
    on_client_error: OnClientError,
    empty: Vec<u8>,
) -> (r: RequestOpts)
    ensures
        r@ == lookup_request(path@, q@, on_client_error, empty@),
{
    RequestOpts {
        method: Method::Get,
        path: path.to_owned(),
        query: q.query_pairs(),
        body: None,
        on_client_error,
        empty,
    }
}

/// A forward lookup.
pub open spec fn forward_request(q: Seq<(Seq<char>, Seq<char>)>) -> RequestView {
    lookup_request("/v2/geocode/forward"@, q, OnClientError::Empty, empty_array())
}

/// A reverse lookup.
pub open spec fn reverse_request(q: Seq<(Seq<char>, Seq<char>)>) -> RequestView {
    lookup_request("/v2/geocode/reverse"@, q, OnClientError::Empty, null_text())
}

/// A lookup of OSM ids; of its 4xx replies a conflict is an error.
pub open spec fn osm_request(q: Seq<(Seq<char>, Seq<char>)>) -> RequestView {
    lookup_request("/v2/address/lookup"@, q, OnClientError::EmptyOrConflict, empty_array())
}

/// What a list of requests asks for.
pub open spec fn requests_view(v: Seq<RequestOpts>) -> Seq<RequestView> {
    v.map_values(|r: RequestOpts| r@)
}

/// The parameters of a list of queries.
pub open spec fn queries_view(v: Seq<Query>) -> Seq<Seq<(Seq<char>, Seq<char>)>> {
    v.map_values(|q: Query| q@)
}

impl GeocodingApi {
    pub closed spec fn limit(&self) -> usize {
        self.concurrency
    }

    pub fn new(concurrency: usize) -> (r: Self)
        ensures
            r.limit() == concurrency,
    {
        GeocodingApi { concurrency }
    }

    /// Forward geocode. On a non-auth 4xx the result is an empty array.
    pub fn forward(&self, q: &Query) -> (r: RequestOpts)
        ensures
            r@ == forward_request(q@),
    {
        let empty: Vec<u8> = vec![0x5B, 0x5D];
        assert(empty@ =~= empty_array());
        new_lookup("/v2/geocode/forward", q, OnClientError::Empty, empty)
    }

    /// Reverse geocode. On a non-auth 4xx there is no result.
    pub fn reverse(&self, q: &Query) -> (r: RequestOpts)
        ensures
            r@ == reverse_request(q@),
    {
        let empty: Vec<u8> = vec![0x6E, 0x75, 0x6C, 0x6C];
        assert(empty@ =~= null_text());
        new_lookup("/v2/geocode/reverse", q, OnClientError::Empty, empty)
    }

    /// Looks up OSM ids. On a 4xx that is neither an auth failure nor a conflict the result is an
    /// empty array.
    pub fn lookup(&self, q: &Query) -> (r: RequestOpts)
        ensures
            r@ == osm_request(q@),
    {
        let empty: Vec<u8> = vec![0x5B, 0x5D];
        assert(empty@ =~= empty_array());
        new_lookup("/v2/address/lookup", q, OnClientError::EmptyOrConflict, empty)
    }

    /// The requests of a batch of forward lookups, in their order.
    pub fn forward_batch(&self, qs: &[Query]) -> (r: Vec<RequestOpts>)
        ensures
            requests_view(r@) == queries_view(qs@).map_values(
                |q: Seq<(Seq<char>, Seq<char>)>| forward_request(q),
            ),
    {
        let mut out: Vec<RequestOpts> = Vec::new();
        let mut i: usize = 0;
        while i < qs.len()
            invariant
                i <= qs@.len(),
                out@.len() == i,
                forall|k: int| 0 <= k < i ==> (#[trigger] out@[k])@ == forward_request(qs@[k]@),
            decreases qs@.len() - i,
        {
            out.push(self.forward(&qs[i]));
            i += 1;
        }
        assert(requests_view(out@) =~= queries_view(qs@).map_values(
            |q: Seq<(Seq<char>, Seq<char>)>| forward_request(q),
        ));
        out
    }

    /// The requests of a batch of reverse lookups, in their order.
    pub fn reverse_batch(&self, qs: &[Query]) -> (r: Vec<RequestOpts>)
        ensures
            requests_view(r@) == queries_view(qs@).map_values(
                |q: Seq<(Seq<char>, Seq<char>)>| reverse_request(q),
            ),
    {
        let mut out: Vec<RequestOpts> = Vec::new();
        let mut i: usize = 0;
        while i < qs.len()
            invariant
                i <= qs@.len(),
                out@.len() == i,
                forall|k: int| 0 <= k < i ==> (#[trigger] out@[k])@ == reverse_request(qs@[k]@),
            decreases qs@.len() - i,
        {
            out.push(self.reverse(&qs[i]));
            i += 1;
        }
        assert(requests_view(out@) =~= queries_view(qs@).map_values(
            |q: Seq<(Seq<char>, Seq<char>)>| reverse_request(q),
        ));
        out
    }

    /// The requests of a batch of lookups of OSM ids, in their order.
    pub fn lookup_batch(&self, qs: &[Query]) -> (r: Vec<RequestOpts>)
        ensures
            requests_view(r@) == queries_view(qs@).map_values(
                |q: Seq<(Seq<char>, Seq<char>)>| osm_request(q),
            ),
    {
        let mut out: Vec<RequestOpts> = Vec::new();
        let mut i: usize = 0;
        while i < qs.len()
            invariant
                i <= qs@.len(),
                out@.len() == i,
                forall|k: int| 0 <= k < i ==> (#[trigger] out@[k])@ == osm_request(qs@[k]@),
            decreases qs@.len() - i,
        {
            out.push(self.lookup(&qs[i]));
            i += 1;
        }
        assert(requests_view(out@) =~= queries_view(qs@).map_values(
            |q: Seq<(Seq<char>, Seq<char>)>| osm_request(q),
        ));
        out
    }

    /// The course of a batch of `n` lookups: at most `concurrency` of them under way.
    pub fn run_batch<T>(&self, n: usize) -> (r: Batch<T>)
        ensures
            r.wf(),
            r@ == batch::fresh::<T>(n as nat, self.limit()),
    {
        Batch::new(n, self.concurrency)
    }
}

/// The documents in a reply: an array, or one document on its own, or none.
pub open spec fn reply_array(
    raw: Seq<u8>,
    array: Option<Seq<serde_json::Value>>,
    one: Result<serde_json::Value, Seq<char>>,
) -> Result<Seq<serde_json::Value>, ErrorView> {
    if raw.len() == 0 {
        Ok(Seq::empty())
    } else {
        match array {
            Some(v) => Ok(v),
            None => match one {
                Err(e) => Err(ErrorView::Json(e)),
                Ok(v) => if json::is_null(v) {
                    Ok(Seq::empty())
                } else {
                    Ok(seq![v])
                },
            },
        }
    }
}

/// Reads the documents in a reply.
pub fn decode_json_array(raw: &[u8]) -> (r: Result<Vec<serde_json::Value>, Error>)
    ensures
        match reply_array(raw@, json::documents(raw@), json::document(raw@)) {
            Ok(v) => r is Ok && r->Ok_0@ == v,
            Err(e) => r is Err && r->Err_0@ == e,
        },
        raw@ == empty_array() ==> r is Ok && r->Ok_0@ == Seq::<serde_json::Value>::empty(),
        raw@.len() == 0 ==> r is Ok && r->Ok_0@.len() == 0,
        raw@.len() > 0 ==> (json::documents(raw@) matches Some(v) ==> r is Ok && r->Ok_0@.len()
            == v.len() && forall|i: int| 0 <= i < v.len() ==> (#[trigger] r->Ok_0@[i]) == v[i]),
        raw@.len() > 0 && json::documents(raw@) is None ==> match json::document(raw@) {
            Ok(v) => r is Ok && r->Ok_0@ == (if json::is_null(v) {
                Seq::<serde_json::Value>::empty()
            } else {
                seq![v]
            }),
            Err(e) => r is Err && r->Err_0@ == ErrorView::Json(e),
        },
{
    if raw.len() == 0 {
        let none: Vec<serde_json::Value> = Vec::new();
        assert(none@ =~= Seq::<serde_json::Value>::empty());
        return Ok(none);
    }
    if let Some(v) = json::parse_documents(raw) {
        return Ok(v);
    }
    match json::parse_document(raw) {
        Err(e) => Err(Error::Json(e)),
        Ok(v) => {
            let mut out: Vec<serde_json::Value> = Vec::new();
            assert(out@ =~= Seq::<serde_json::Value>::empty());
            if !json::check_null(&v) {
                out.push(v);
                assert(out@ =~= seq![v]);
            }
            Ok(out)
        },
    }
}

fn is_null_text(raw: &[u8]) -> (r: bool)
    ensures
        r == (raw@ == null_text()),
{
    if raw.len() == 4 && raw[0] == 0x6E && raw[1] == 0x75 && raw[2] == 0x6C && raw[3] == 0x6C {
        assert(raw@ =~= null_text());
        true
    } else {
        assert(raw@ != null_text()) by {
            if raw@ == null_text() {
                assert(raw@[0] == null_text()[0]);
                assert(raw@[1] == null_text()[1]);
                assert(raw@[2] == null_text()[2]);
                assert(raw@[3] == null_text()[3]);
            }
        }
        false
    }
}

/// Reads the document in a reply, where there may be none.
pub fn decode_optional(raw: &[u8]) -> (r: Result<Option<serde_json::Value>, Error>)
    ensures
        raw@.len() == 0 || raw@ == null_text() ==> r is Ok && r->Ok_0 is None,
        raw@ == seq![0x6Eu8, 0x75, 0x6C, 0x6C] ==> r is Ok && r->Ok_0 is None,
        raw@.len() > 0 && raw@ != seq![0x6Eu8, 0x75, 0x6C, 0x6C] ==> match json::document(raw@) {
            Ok(v) => r is Ok && r->Ok_0 == Some(v),
            Err(e) => r is Err && r->Err_0@ == ErrorView::Json(e),
        },
        raw@.len() > 0 && raw@ != null_text() ==> match json::document(raw@) {
            Ok(v) => r is Ok && r->Ok_0 == Some(v),
            Err(e) => r is Err && r->Err_0@ == ErrorView::Json(e),
        },
{
    if raw.len() == 0 || is_null_text(raw) {
        return Ok(None);
    }
    match json::parse_document(raw) {
        Ok(v) => Ok(Some(v)),
        Err(e) => Err(Error::Json(e)),
    }
}

/// On a 4xx that is no auth failure a forward lookup finds nothing and a reverse lookup has no
/// result, whatever the reply says.
pub proof fn law_lookups_are_empty_on_client_errors(
    s: transport::RequestStateView,
    bearer: bool,
    max_retries: u32,
    retry_base: Nanos,
    q: Seq<(Seq<char>, Seq<char>)>,
    status: u16,
    raw: Seq<u8>,
    error: Option<transport::ErrorBodyView>,
)
    requires
        400 <= status < 500,
        !(401 <= status <= 403),
    ensures
        ({
            let reply = transport::ReplyView::Response { status, raw, error };
            let f = forward_request(q);
            let r = reverse_request(q);
            &&& s.after(bearer, max_retries, retry_base, f.on_client_error, f.empty, reply).1
                == transport::StepView::Done(Ok(empty_array()))
            &&& s.after(bearer, max_retries, retry_base, r.on_client_error, r.empty, reply).1
                == transport::StepView::Done(Ok(null_text()))
        }),
{
}

/// The places come out as the reply lists them: a reply that reads as an array of documents gives
/// exactly those, each in its place, so that the best match stays first. Nothing is read into an
/// empty reply.
pub proof fn law_places_keep_the_order_of_the_reply(
    raw: Seq<u8>,
    array: Option<Seq<serde_json::Value>>,
    one: Result<serde_json::Value, Seq<char>>,
)
    ensures
        raw.len() == 0 ==> (reply_array(raw, array, one) matches Ok(v) && v.len() == 0),
        raw.len() > 0 && array is Some ==> {
            let v = reply_array(raw, array, one);
            &&& v is Ok
            &&& v->Ok_0.len() == array->0.len()
            &&& forall|i: int| 0 <= i < array->0.len() ==> (#[trigger] v->Ok_0[i]) == array->0[i]
        },
{
}

/// A reply that is no array gives its one document, none where that is null, and the error of the
/// reader where it is no document either.
pub proof fn law_a_single_place_is_a_list_of_one(
    raw: Seq<u8>,
    one: Result<serde_json::Value, Seq<char>>,
)
    requires
        raw.len() > 0,
    ensures
        match one {
            Ok(v) => reply_array(raw, None, one) matches Ok(out) && (if json::is_null(v) {
                out.len() == 0
            } else {
                out.len() == 1 && out[0] == v
            }),
            Err(e) => reply_array(raw, None, one) matches Err(ErrorView::Json(text)) && text == e,
        },
{
}

/// What a lookup asks for: a GET of its own endpoint, with the parameters that have a value, in
/// their order and as they were set, and without a body.
pub proof fn law_lookups_ask_with_their_parameters(q: Seq<(Seq<char>, Seq<char>)>)
    ensures
        ({
            let kept = q.filter(|p: (Seq<char>, Seq<char>)| p.1.len() > 0);
            let f = forward_request(q);
            let r = reverse_request(q);
            let o = osm_request(q);
            &&& f.method == Method::Get && r.method == Method::Get && o.method == Method::Get
            &&& f.path == "/v2/geocode/forward"@
            &&& r.path == "/v2/geocode/reverse"@
            &&& o.path == "/v2/address/lookup"@
            &&& f.query == kept && r.query == kept && o.query == kept
            &&& f.body is None && r.body is None && o.body is None
        }),
        forall|i: int|
            0 <= i < forward_request(q).query.len() ==> (#[trigger] forward_request(
                q,
            ).query[i]).1.len() > 0,
        forall|i: int|
            0 <= i < q.len() && (#[trigger] q[i]).1.len() > 0 ==> forward_request(
                q,
            ).query.contains(q[i]),
{
    let has = |p: (Seq<char>, Seq<char>)| p.1.len() > 0;
    assert(query::has_value() =~= has);
    assert forall|i: int| 0 <= i < forward_request(q).query.len() implies (
    #[trigger] forward_request(q).query[i]).1.len() > 0 by {
        q.lemma_filter_pred(has, i);
    }
    assert forall|i: int|
        0 <= i < q.len() && (#[trigger] q[i]).1.len() > 0 implies forward_request(
        q,
    ).query.contains(q[i]) by {
        q.lemma_filter_contains(has, i);
    }
}

/// What a 4xx reply that is no auth failure comes to, for each lookup: a forward lookup and one of
/// OSM ids find nothing, a reverse lookup has no result; only of OSM ids is a conflict an error.
/// Auth failures are errors everywhere.
pub proof fn law_what_lookups_make_of_refusals(
    s: transport::RequestStateView,
    max_retries: u32,
    retry_base: Nanos,
    q: Seq<(Seq<char>, Seq<char>)>,
    status: u16,
    raw: Seq<u8>,
    error: Option<transport::ErrorBodyView>,
)
    requires
        400 <= status < 500,
    ensures
        ({
            let reply = transport::ReplyView::Response { status, raw, error };
            let f = forward_request(q);
            let r = reverse_request(q);
            let o = osm_request(q);
            let a = s.after(false, max_retries, retry_base, f.on_client_error, f.empty, reply).1;
            let b = s.after(false, max_retries, retry_base, r.on_client_error, r.empty, reply).1;
            let c = s.after(false, max_retries, retry_base, o.on_client_error, o.empty, reply).1;
            let auth = status == 401 || status == 402 || status == 403;
            &&& !auth ==> (a matches transport::StepView::Done(Ok(v)) && v == seq![0x5Bu8, 0x5D])
            &&& !auth ==> (b matches transport::StepView::Done(Ok(v)) && v == seq![
                0x6Eu8,
                0x75,
                0x6C,
                0x6C,
            ])
            &&& !auth && status != 409 ==> (c matches transport::StepView::Done(Ok(v)) && v == seq![
                0x5Bu8,
                0x5D,
            ])
            &&& status == 409 ==> (c matches transport::StepView::Done(Err(ErrorView::Api(e)))
                && e.code == "CONFLICT"@)
            &&& auth ==> (a matches transport::StepView::Done(Err(_))) && (
            b matches transport::StepView::Done(Err(_))) && (c matches transport::StepView::Done(
                Err(_),
            ))
        }),
{
}

} // verus!
