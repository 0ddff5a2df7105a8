//! Devices service (`/v2/devices*`).

use crate::auth::{pairs_view, push_pair};
use crate::config;
use crate::encoding;
use crate::text;
use crate::transport;
use crate::transport::{new_request, BodyView, Method, RequestBody, RequestOpts, RequestView};
use vstd::prelude::*;
use vstd::string::*;

verus! {

/// A device of the public API.
#[derive(Debug)]
pub struct Device {
    pub id: i64,
    pub uid: String,
    pub name: String,
    pub status: String,
    pub description: Option<String>,
    pub tracks_count: i64,
    /// `type` in the document.
    pub kind: String,
    pub secret: String,
    pub metadata: Option<String>,
    pub created_at: String,
    pub updated_at: String,
    pub last_location: Option<serde_json::Value>,
}

/// Create/update body of a device.
#[derive(Debug, PartialEq, Eq)]
pub struct DeviceInput {
    pub name: String,
    /// `type` in the document.
    pub kind: String,
    pub description: Option<String>,
    pub metadata: Option<String>,
}

/// The value of a [`DeviceInput`].
pub struct DeviceInputView {
    pub name: Seq<char>,
    pub kind: Seq<char>,
    pub description: Option<Seq<char>>,
    pub metadata: Option<Seq<char>>,
}

impl View for DeviceInput {
    type V = DeviceInputView;

    open spec fn view(&self) -> DeviceInputView {
        DeviceInputView {
            name: self.name@,
            kind: self.kind@,
            description: config::opt_text(self.description),
            metadata: config::opt_text(self.metadata),
        }
    }
}

/// `GET /v2/devices` response.
#[derive(Debug)]
pub struct DeviceListResult {
    pub data: Vec<Device>,
    pub total: i64,
}

/// Optional list filters.
#[derive(Debug, PartialEq, Eq)]
pub struct DeviceListQuery {
    pub skip: Option<i64>,
    pub take: Option<i64>,
    pub search: Option<String>,
    pub idle: bool,
}

impl Default for DeviceListQuery {
    fn default() -> (r: Self)
        ensures
            r.skip is None,
            r.take is None,
            r.search is None,
            !r.idle,
    {
        DeviceListQuery { skip: None, take: None, search: None, idle: false }
    }
}

/// `POST /v2/devices/{uid}/command` response.
#[derive(Debug, Clone, Copy, PartialEq, Eq)]
pub struct DeviceCommandResult {
    pub delivered: u64,
}

/// A count as a parameter; nothing where it is not positive.
pub open spec fn count_pair(name: Seq<char>, v: Option<i64>) -> Seq<(Seq<char>, Seq<char>)> {
    match v {
        Some(n) => if n > 0 {
            seq![(name, text::decimal(n as nat))]
        } else {
            Seq::empty()
        },
        None => Seq::empty(),
    }
}

/// A search text as a parameter; nothing where it is empty.
pub open spec fn search_pair(search: Option<String>) -> Seq<(Seq<char>, Seq<char>)> {
    match search {
        Some(s) => if s@.len() > 0 {
            seq![("search"@, s@)]
        } else {
            Seq::empty()
        },
        None => Seq::empty(),
    }
}

/// The parameters of a list request.
pub open spec fn list_pairs(q: DeviceListQuery) -> Seq<(Seq<char>, Seq<char>)> {
    count_pair("skip"@, q.skip) + (count_pair("take"@, q.take) + (search_pair(q.search) + (if q.idle {
        seq![("idle"@, "1"@)]
    } else {
        Seq::empty()
    })))
}

/// A list request.
pub open spec fn list_request(q: DeviceListQuery) -> RequestView {
    RequestView {
        query: list_pairs(q),
        ..transport::plain_request(Method::Get, "/v2/devices"@, None)
    }
}

/// The path of a device.
pub open spec fn device_path(uid: Seq<char>) -> Seq<char> {
    "/v2/devices/"@ + encoding::segment_text(uid)
}

/// A command for a device.
pub open spec fn command_request(uid: Seq<char>, payload: Seq<u8>) -> RequestView {
    transport::plain_request(
        Method::Post,
        device_path(uid) + "/command"@,
        Some(BodyView::Command { payload: encoding::base64_text(payload) }),
    )
}

fn push_count(v: &mut Vec<(String, String)>, name: &str, n: Option<i64>)
    ensures
        pairs_view(final(v)@) == pairs_view(old(v)@) + count_pair(name@, n),
{
    let ghost before = pairs_view(v@);
    if let Some(n) = n {
        if n > 0 {
            let t = text::decimal_text(n as u64);
            push_pair(v, name, t.as_str());
        }
    }
    assert(pairs_view(v@) =~= before + count_pair(name@, n));
}

/// Devices service.
#[derive(Debug, Clone, Copy)]
pub struct DevicesApi {}

impl DevicesApi {
    pub fn new() -> (r: Self)
        ensures
            r == (DevicesApi {  }),
    {
        DevicesApi {  }
    }

    /// Lists devices.
    pub fn list(&self, q: DeviceListQuery) -> (r: RequestOpts)
        ensures
            r@ == list_request(q),
    {
        let mut query: Vec<(String, String)> = Vec::new();
        assert(pairs_view(query@) =~= Seq::<(Seq<char>, Seq<char>)>::empty());
        push_count(&mut query, "skip", q.skip);
        push_count(&mut query, "take", q.take);
        let ghost counts = pairs_view(query@);
        let ghost s = search_pair(q.search);
        if let Some(search) = &q.search {
            if search.as_str().unicode_len() > 0 {
                push_pair(&mut query, "search", search.as_str());
            }
        }
        assert(pairs_view(query@) =~= counts + s);
        if q.idle {
            push_pair(&mut query, "idle", "1");
        }
        assert(pairs_view(query@) =~= list_pairs(q));
        let mut r = new_request(Method::Get, "/v2/devices", None);
        r.query = query;
        r
    }

    fn path(&self, uid: &str) -> (r: String)
        ensures
            r@ == device_path(uid@),
    {
        let mut p = "/v2/devices/".to_owned();
        let s = encoding::encode_segment(uid);
        p.append(s.as_str());
        p
    }

    /// Gets a device by UID.
    pub fn get(&self, uid: &str) -> (r: RequestOpts)
        ensures
            r@ == transport::plain_request(Method::Get, device_path(uid@), None),
    {
        let p = self.path(uid);
        new_request(Method::Get, p.as_str(), None)
    }

    /// Creates a device.
    pub fn create(&self, input: DeviceInput) -> (r: RequestOpts)
        ensures
            r@ == transport::plain_request(
                Method::Post,
                "/v2/devices"@,
                Some(BodyView::Device(input@)),
            ),
    {
        new_request(Method::Post, "/v2/devices", Some(RequestBody::Device(input)))
    }

    /// Updates a device.
    pub fn update(&self, uid: &str, input: DeviceInput) -> (r: RequestOpts)
        ensures
            r@ == transport::plain_request(
                Method::Patch,
                device_path(uid@),
                Some(BodyView::Device(input@)),
            ),
    {
        let p = self.path(uid);
        new_request(Method::Patch, p.as_str(), Some(RequestBody::Device(input)))
    }

    /// Deletes a device.
    pub fn delete(&self, uid: &str) -> (r: RequestOpts)
        ensures
            r@ == transport::plain_request(Method::Delete, device_path(uid@), None),
    {
        let p = self.path(uid);
        new_request(Method::Delete, p.as_str(), None)
    }

    /// Injects opaque bytes into an online device session, in Base64.
    pub fn command(&self, uid: &str, payload: &[u8]) -> (r: RequestOpts)
        requires
            payload@.len() <= usize::MAX / 4,
        ensures
            r@ == command_request(uid@, payload@),
    {
        let mut p = self.path(uid);
        p.append("/command");
        let body = RequestBody::Command { payload: encoding::encode_base64(payload) };
        new_request(Method::Post, p.as_str(), Some(body))
    }
}

/// The parameters of a list request: each filter that is set, under its name and in this order;
/// a count only where it is positive, a search only where it is not empty.
pub proof fn law_list_filters_become_parameters(q: DeviceListQuery)
    ensures
        ({
            let r = list_request(q);
            let skip = q.skip matches Some(n) && n > 0;
            let take = q.take matches Some(n) && n > 0;
            let search = q.search matches Some(s) && s@.len() > 0;
            let a = if skip {
                1int
            } else {
                0
            };
            let b = a + (if take {
                1int
            } else {
                0
            });
            let c = b + (if search {
                1int
            } else {
                0
            });
            &&& r.method == Method::Get && r.path == "/v2/devices"@ && r.body is None
            &&& r.on_client_error == transport::OnClientError::Throw
            &&& r.query.len() == c + (if q.idle {
                1int
            } else {
                0
            })
            &&& skip ==> r.query[0] == ("skip"@, text::decimal(q.skip->0 as nat))
            &&& take ==> r.query[a] == ("take"@, text::decimal(q.take->0 as nat))
            &&& search ==> r.query[b] == ("search"@, q.search->0@)
            &&& q.idle ==> r.query[c] == ("idle"@, "1"@)
        }),
{
}

/// A request about one device goes to its own path, with its UID as one encoded segment. A command
/// carries its payload in Base64 and is posted below it.
pub proof fn law_device_requests_go_to_the_device(uid: Seq<char>, payload: Seq<u8>)
    ensures
        device_path(uid) == "/v2/devices/"@ + encoding::segment_text(uid),
        ({
            let r = command_request(uid, payload);
            &&& r.method == Method::Post
            &&& r.path == "/v2/devices/"@ + encoding::segment_text(uid) + "/command"@
            &&& r.query.len() == 0
            &&& r.body matches Some(BodyView::Command { payload: text }) && text
                == encoding::base64_text(payload)
            &&& r.on_client_error == transport::OnClientError::Throw
        }),
{
}

} // verus!
