//! The HTTP client (geocoding, address, routing, devices).

use crate::address;
use crate::address::AddressApi;
use crate::auth;
use crate::auth::resolve_auth;
use crate::clock::Nanos;
use crate::config::{
    Config, ConfigView, DEFAULT_CONCURRENCY, DEFAULT_MAX_RETRIES, DEFAULT_RETRY_BASE,
    DEFAULT_TIMEOUT, MAX_CONCURRENCY, MIN_RETRY_BASE,
};
use crate::devices;
use crate::devices::{DeviceInput, DeviceListQuery, DevicesApi};
use crate::error::Error;
use crate::geocoding;
use crate::geocoding::GeocodingApi;
use crate::mint;
use crate::query;
use crate::query::Query;
use crate::routing::RoutingApi;
use crate::transport;
use crate::transport::{BodyView, Method, RequestOpts, Transport};
use vstd::prelude::*;

verus! {

/// What the HTTP client needs to make requests, whatever the service.
#[derive(Debug)]
pub struct Client {
    pub transport: Transport,
    pub timeout: Nanos,
    pub concurrency: usize,
}

/// How many lookups of a batch may be under way.
pub open spec fn concurrency_of(cfg: ConfigView) -> usize {
    match cfg.concurrency {
        None => DEFAULT_CONCURRENCY,
        Some(n) => if n == 0 {
            DEFAULT_CONCURRENCY
        } else if n > MAX_CONCURRENCY {
            MAX_CONCURRENCY
        } else {
            n
        },
    }
}

/// The backoff base in force.
pub open spec fn retry_base_of(cfg: ConfigView) -> Nanos {
    match cfg.retry_base {
        None => DEFAULT_RETRY_BASE,
        Some(d) => if d < MIN_RETRY_BASE {
            MIN_RETRY_BASE
        } else {
            d
        },
    }
}

impl Client {
    /// Builds a client. Provide exactly one of `api_key`, `client_auth`, `access_token`.
    pub fn new(cfg: Config, now: Nanos) -> (r: Result<Self, Error>)
        ensures
            match auth::resolved(cfg@, now) {
                Err(e) => r is Err && r->Err_0@ == e,
                Ok(a) => {
                    &&& r is Ok
                    &&& r->Ok_0.transport.auth@ == a
                    &&& r->Ok_0.transport.base_url@ == mint::base_of(cfg@)
                    &&& r->Ok_0.transport.max_retries == (match cfg@.max_retries {
                        Some(n) => n,
                        None => DEFAULT_MAX_RETRIES,
                    })
                    &&& r->Ok_0.transport.retry_base == retry_base_of(cfg@)
                    &&& r->Ok_0.concurrency == concurrency_of(cfg@)
                    &&& r->Ok_0.timeout == (match cfg@.timeout {
                        Some(t) => t,
                        None => DEFAULT_TIMEOUT,
                    })
                },
            },
    {
        let base_url = mint::base_url(&cfg);
        let timeout: Nanos = mint::timeout_of(&cfg);
        let max_retries: u32 = cfg.max_retries.unwrap_or(DEFAULT_MAX_RETRIES);
        let mut retry_base: Nanos = cfg.retry_base.unwrap_or(DEFAULT_RETRY_BASE);
        if retry_base < MIN_RETRY_BASE {
            retry_base = MIN_RETRY_BASE;
        }
        let mut concurrency: usize = cfg.concurrency.unwrap_or(DEFAULT_CONCURRENCY);
        if concurrency == 0 {
            concurrency = DEFAULT_CONCURRENCY;
        }
        if concurrency > MAX_CONCURRENCY {
            concurrency = MAX_CONCURRENCY;
        }
        let auth = resolve_auth(&cfg, now)?;
        Ok(
            Client {
                transport: Transport { base_url, auth, max_retries, retry_base },
                timeout,
                concurrency,
            },
        )
    }

    /// Parallel geocode batch concurrency.
    pub fn concurrency(&self) -> (r: usize)
        ensures
            r == self.concurrency,
    {
        self.concurrency
    }

    /// Retry backoff base.
    pub fn retry_base(&self) -> (r: Nanos)
        ensures
            r == self.transport.retry_base,
    {
        self.transport.retry_base
    }

    /// Per-attempt timeout.
    pub fn timeout(&self) -> (r: Nanos)
        ensures
            r == self.timeout,
    {
        self.timeout
    }

    /// Geocoding service.
    pub fn geocoding(&self) -> (r: GeocodingApi)
        ensures
            r.limit() == self.concurrency,
    {
        GeocodingApi::new(self.concurrency)
    }

    /// Address service.
    pub fn address(&self) -> (r: AddressApi)
        ensures
            r == (AddressApi {  }),
    {
        AddressApi::new()
    }

    /// Routing service.
    pub fn routing(&self) -> (r: RoutingApi)
        ensures
            r == (RoutingApi {  }),
    {
        RoutingApi::new()
    }

    /// Devices service.
    pub fn devices(&self) -> (r: DevicesApi)
        ensures
            r == (DevicesApi {  }),
    {
        DevicesApi::new()
    }

    /// Forward geocode.
    pub fn forward(&self, q: &Query) -> (r: RequestOpts)
        ensures
            r@ == geocoding::forward_request(q@),
    {
        self.geocoding().forward(q)
    }

    /// Reverse geocode.
    pub fn reverse(&self, q: &Query) -> (r: RequestOpts)
        ensures
            r@ == geocoding::reverse_request(q@),
    {
        self.geocoding().reverse(q)
    }

    /// Place lookup.
    pub fn lookup(&self, q: &Query) -> (r: RequestOpts)
        ensures
            r@ == geocoding::osm_request(q@),
    {
        self.geocoding().lookup(q)
    }

    /// Batch forward geocode.
    pub fn forward_batch(&self, qs: &[Query]) -> (r: Vec<RequestOpts>)
        ensures
            geocoding::requests_view(r@) == geocoding::queries_view(qs@).map_values(
                |q: Seq<(Seq<char>, Seq<char>)>| geocoding::forward_request(q),
            ),
    {
        self.geocoding().forward_batch(qs)
    }

    /// Batch reverse geocode.
    pub fn reverse_batch(&self, qs: &[Query]) -> (r: Vec<RequestOpts>)
        ensures
            geocoding::requests_view(r@) == geocoding::queries_view(qs@).map_values(
                |q: Seq<(Seq<char>, Seq<char>)>| geocoding::reverse_request(q),
            ),
    {
        self.geocoding().reverse_batch(qs)
    }

    /// Batch lookup.
    pub fn lookup_batch(&self, qs: &[Query]) -> (r: Vec<RequestOpts>)
        ensures
            geocoding::requests_view(r@) == geocoding::queries_view(qs@).map_values(
                |q: Seq<(Seq<char>, Seq<char>)>| geocoding::osm_request(q),
            ),
    {
        self.geocoding().lookup_batch(qs)
    }

    /// Address search.
    pub fn search(&self, q: &Query) -> (r: RequestOpts)
        ensures
            r@ == address::search_request(q@),
    {
        self.address().search(q)
    }

    /// Route.
    pub fn route(&self, body: serde_json::Value) -> (r: RequestOpts)
        ensures
            r@ == transport::plain_request(Method::Post, "/v2/route"@, Some(BodyView::Json(body))),
    {
        self.routing().route(body)
    }

    /// Optimized multi-stop route.
    pub fn optimized_route(&self, body: serde_json::Value) -> (r: RequestOpts)
        ensures
            r@ == transport::plain_request(Method::Post, "/v2/route/optimized"@, Some(BodyView::Json(body))),
    {
        self.routing().optimized(body)
    }

    /// Time/distance matrix.
    pub fn matrix(&self, body: serde_json::Value) -> (r: RequestOpts)
        ensures
            r@ == transport::plain_request(Method::Post, "/v2/route/matrix"@, Some(BodyView::Json(body))),
    {
        self.routing().matrix(body)
    }

    /// Snap to the road network.
    pub fn locate(&self, body: serde_json::Value) -> (r: RequestOpts)
        ensures
            r@ == transport::plain_request(Method::Post, "/v2/route/locate"@, Some(BodyView::Json(body))),
    {
        self.routing().locate(body)
    }

    /// Elevation along a path.
    pub fn elevation(&self, body: serde_json::Value) -> (r: RequestOpts)
        ensures
            r@ == transport::plain_request(Method::Post, "/v2/route/elevation"@, Some(BodyView::Json(body))),
    {
        self.routing().elevation(body)
    }

    /// Lists devices.
    pub fn list_devices(&self, q: DeviceListQuery) -> (r: RequestOpts)
        ensures
            r@ == devices::list_request(q),
    {
        self.devices().list(q)
    }

    /// Gets a device.
    pub fn get_device(&self, uid: &str) -> (r: RequestOpts)
        ensures
            r@ == transport::plain_request(Method::Get, devices::device_path(uid@), None),
    {
        self.devices().get(uid)
    }

    /// Creates a device.
    pub fn create_device(&self, input: DeviceInput) -> (r: RequestOpts)
        ensures
            r@ == transport::plain_request(Method::Post, "/v2/devices"@, Some(BodyView::Device(input@))),
    {
        self.devices().create(input)
    }

    /// Updates a device.
    pub fn update_device(&self, uid: &str, input: DeviceInput) -> (r: RequestOpts)
        ensures
            r@ == transport::plain_request(
                Method::Patch,
                devices::device_path(uid@),
                Some(BodyView::Device(input@)),
            ),
    {
        self.devices().update(uid, input)
    }

    /// Deletes a device.
    pub fn delete_device(&self, uid: &str) -> (r: RequestOpts)
        ensures
            r@ == transport::plain_request(Method::Delete, devices::device_path(uid@), None),
    {
        self.devices().delete(uid)
    }

    /// Sends a command to a device.
    pub fn device_command(&self, uid: &str, payload: &[u8]) -> (r: RequestOpts)
        requires
            payload@.len() <= usize::MAX / 4,
        ensures
            r@ == devices::command_request(uid@, payload@),
    {
        self.devices().command(uid, payload)
    }
}

/// A batch never has more than 20 lookups under way, and always room for one.
pub proof fn law_concurrency_is_capped(cfg: ConfigView)
    ensures
        1 <= concurrency_of(cfg) <= MAX_CONCURRENCY,
{
}

/// The backoff base is never below its minimum.
pub proof fn law_retry_base_has_a_floor(cfg: ConfigView)
    ensures
        retry_base_of(cfg) >= MIN_RETRY_BASE,
{
}

/// The settings in force: 20 lookups at once unless fewer are asked for, a backoff base of a second
/// unless another is asked for, and never under 200 ms; the public API unless another address is
/// given.
pub proof fn law_settings_in_force(cfg: ConfigView)
    ensures
        cfg.concurrency is None ==> concurrency_of(cfg) == 20,
        cfg.concurrency matches Some(n) ==> concurrency_of(cfg) == (if n == 0 || n > 20 {
            20
        } else {
            n
        }),
        cfg.retry_base is None ==> retry_base_of(cfg) == 1_000_000_000,
        cfg.retry_base matches Some(d) ==> retry_base_of(cfg) == (if d < 200_000_000 {
            200_000_000
        } else {
            d as int
        }),
        cfg.base_url is None ==> mint::base_of(cfg) == transport::slashes_trimmed(
            "https://api.pickpoint.io"@,
        ),
        cfg.base_url matches Some(u) ==> mint::base_of(cfg) == transport::slashes_trimmed(u),
{
}

/// A request that is not a lookup asks for its path, carries its body, has no parameters, and its
/// refusals are errors.
pub proof fn law_plain_requests(method: Method, path: Seq<char>, body: Option<BodyView>)
    ensures
        ({
            let r = transport::plain_request(method, path, body);
            &&& r.method == method && r.path == path && r.body == body
            &&& r.query.len() == 0 && r.empty.len() == 0
            &&& r.on_client_error == transport::OnClientError::Throw
        }),
{
}

/// An address search asks with the parameters that have a value, in order, and its refusals are
/// errors.
pub proof fn law_search_asks_with_its_parameters(q: Seq<(Seq<char>, Seq<char>)>)
    ensures
        ({
            let r = address::search_request(q);
            &&& r.method == Method::Get && r.path == "/v2/address/search"@ && r.body is None
            &&& r.query == q.filter(|p: (Seq<char>, Seq<char>)| p.1.len() > 0)
            &&& r.on_client_error == transport::OnClientError::Throw
        }),
{
    assert(query::has_value() =~= |p: (Seq<char>, Seq<char>)| p.1.len() > 0);
}

} // verus!
