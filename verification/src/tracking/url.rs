//! The WebSocket address of a session.

use crate::encoding;
use crate::text;
use crate::tracking::codec::DEFAULT_WS_PATH;
use crate::tracking::config::{Config, ConfigView};
use vstd::prelude::*;
use vstd::string::*;

verus! {

/// `url::Url`.
#[verifier::external_type_specification]
#[verifier::external_body]
pub struct ExUrl(url::Url);

/// What `url::Url::parse` makes of a text: an address, or the text of an error.
pub uninterp spec fn parsed(raw: Seq<char>) -> Result<url::Url, Seq<char>>;

/// What `url::Url::as_str` gives: the address as text.
pub uninterp spec fn url_text(u: url::Url) -> Seq<char>;

/// What `url::Url::scheme` gives.
pub uninterp spec fn scheme_of(u: url::Url) -> Seq<char>;

/// What `url::Url::path` gives.
pub uninterp spec fn path_of(u: url::Url) -> Seq<char>;

/// What `url::Url::query_pairs` gives: the names and values in the query, decoded.
pub uninterp spec fn pairs_of(u: url::Url) -> Seq<(Seq<char>, Seq<char>)>;

/// What `url::Url::set_scheme` makes of an address: nothing where it refuses the scheme.
pub uninterp spec fn with_scheme(u: url::Url, scheme: Seq<char>) -> Option<url::Url>;

/// What `url::Url::set_path` makes of an address.
pub uninterp spec fn with_path(u: url::Url, path: Seq<char>) -> url::Url;

/// What `url::Url::query_pairs_mut` makes of an address before anything is appended.
pub uninterp spec fn with_query(u: url::Url) -> url::Url;

/// What `append_pair` on `url::Url::query_pairs_mut` makes of an address.
pub uninterp spec fn with_pair(u: url::Url, name: Seq<char>, value: Seq<char>) -> url::Url;

/// `url::Url::parse`, with the error as its text.
#[verifier::external_body]
fn parse_url(raw: &str) -> (r: Result<url::Url, String>)
    ensures
        match parsed(raw@) {
            Ok(u) => r == Ok::<url::Url, String>(u),
            Err(e) => r is Err && r->Err_0@ == e,
        },
{
    match url::Url::parse(raw) {
        Ok(u) => Ok(u),
        Err(e) => Err(e.to_string()),
    }
}

/// `url::Url::as_str`: the address as text.
#[verifier::external_body]
fn text_of(u: &url::Url) -> (r: &str)
    ensures
        r@ == url_text(*u),
{
    u.as_str()
}

/// `url::Url::scheme`.
#[verifier::external_body]
fn scheme(u: &url::Url) -> (r: &str)
    ensures
        r@ == scheme_of(*u),
{
    u.scheme()
}

/// `url::Url::set_scheme` to one of `ws` and `wss`. A refusal leaves the address as it was; on
/// success the address has that scheme and grows by no more than its length, and its query stays.
/// From `http` and `https` it succeeds, since those have a host and rank with `ws` and `wss`, and
/// the address does not grow.
#[verifier::external_body]
fn set_scheme(u: &mut url::Url, scheme: &str) -> (r: bool)
    requires
        scheme@ == "ws"@ || scheme@ == "wss"@,
        url_text(*old(u)).len() + scheme@.len() <= u32::MAX,
    ensures
        match with_scheme(*old(u), scheme@) {
            Some(v) => {
                &&& r
                &&& *final(u) == v
                &&& scheme_of(v) == scheme@
                &&& pairs_of(v) == pairs_of(*old(u))
                &&& url_text(v).len() <= url_text(*old(u)).len() + scheme@.len()
            },
            None => !r && *final(u) == *old(u),
        },
        scheme_of(*old(u)) == "http"@ || scheme_of(*old(u)) == "https"@ ==> r && url_text(
            *final(u),
        ).len() <= url_text(*old(u)).len(),
{
    u.set_scheme(scheme).is_ok()
}

/// The most characters that a path takes: letters, digits and `-._~` stay as they are, any other
/// byte takes three at most.
pub open spec fn path_max(path: Seq<char>) -> int {
    encoding::segment_text(path).len() as int
}

/// The characters that a pair takes: name and value as in a form, `=`, and `&` before it.
pub open spec fn pair_len(name: Seq<char>, value: Seq<char>) -> int {
    encoding::form_with(Seq::empty(), name, value).len() as int + 1
}

/// `url::Url::set_path`. It leaves scheme and query alone and grows the address by no more than
/// the percent-encoded path and three characters. In a `ws` or `wss` address the path `/v2/ws` stands as
/// it is.
#[verifier::external_body]
fn set_path(u: &mut url::Url, path: &str)
    requires
        url_text(*old(u)).len() + path_max(path@) + 3 <= u32::MAX,
    ensures
        *final(u) == with_path(*old(u), path@),
        scheme_of(*final(u)) == scheme_of(*old(u)),
        pairs_of(*final(u)) == pairs_of(*old(u)),
        path@ == "/v2/ws"@ && (scheme_of(*old(u)) == "ws"@ || scheme_of(*old(u)) == "wss"@)
            ==> path_of(*final(u)) == path@,
        url_text(*final(u)).len() <= url_text(*old(u)).len() + path_max(path@) + 3,
{
    u.set_path(path);
}

/// `url::Url::query_pairs_mut`: the address gets a query, an empty one if it had none, and grows by
/// one character at most. Scheme, path and pairs stay.
#[verifier::external_body]
fn open_query(u: &mut url::Url)
    requires
        url_text(*old(u)).len() < u32::MAX,
    ensures
        *final(u) == with_query(*old(u)),
        scheme_of(*final(u)) == scheme_of(*old(u)),
        path_of(*final(u)) == path_of(*old(u)),
        pairs_of(*final(u)) == pairs_of(*old(u)),
        url_text(*final(u)).len() <= url_text(*old(u)).len() + 1,
{
    u.query_pairs_mut();
}

/// `append_pair` of `url::Url::query_pairs_mut`: `name=value`, both form-encoded, goes to the end
/// of the query, so that the pair comes last. Scheme and path stay, and the address grows by no
/// more than the pair and a `&`.
#[verifier::external_body]
fn append_pair(u: &mut url::Url, name: &str, value: &str)
    requires
        url_text(*old(u)).len() + pair_len(name@, value@) < u32::MAX,
    ensures
        *final(u) == with_pair(*old(u), name@, value@),
        scheme_of(*final(u)) == scheme_of(*old(u)),
        path_of(*final(u)) == path_of(*old(u)),
        pairs_of(*final(u)) == pairs_of(*old(u)).push((name@, value@)),
        url_text(*final(u)).len() <= url_text(*old(u)).len() + pair_len(name@, value@),
{
    u.query_pairs_mut().append_pair(name, value);
}

/// The endpoint with a scheme in front: `ws://` where it names none.
pub open spec fn full_endpoint(endpoint: Seq<char>) -> Seq<char> {
    let raw = text::trimmed(endpoint);
    if text::has_part(raw, "://"@) {
        raw
    } else {
        "ws://"@ + raw
    }
}

/// Which scheme an address must be changed to: none for `ws` and `wss`, `ws` for `http` and `wss`
/// for `https`; any other scheme is refused.
pub open spec fn scheme_change(scheme: Seq<char>) -> Result<Option<Seq<char>>, Seq<char>> {
    if scheme == "http"@ {
        Ok(Some("ws"@))
    } else if scheme == "https"@ {
        Ok(Some("wss"@))
    } else if scheme == "ws"@ || scheme == "wss"@ {
        Ok(None)
    } else {
        Err("tracking: unsupported scheme \""@ + scheme + "\""@)
    }
}

/// Decides which scheme an address must be changed to.
pub fn choose_scheme(scheme: &str) -> (r: Result<Option<&'static str>, String>)
    ensures
        match scheme_change(scheme@) {
            Ok(Some(s)) => r is Ok && r->Ok_0 is Some && r->Ok_0->0@ == s,
            Ok(None) => r is Ok && r->Ok_0 is None,
            Err(e) => r is Err && r->Err_0@ == e,
        },
{
    if text::str_eq(scheme, "http") {
        Ok(Some("ws"))
    } else if text::str_eq(scheme, "https") {
        Ok(Some("wss"))
    } else if text::str_eq(scheme, "ws") || text::str_eq(scheme, "wss") {
        Ok(None)
    } else {
        Err(text::concat3("tracking: unsupported scheme \"", scheme, "\""))
    }
}

/// The path of a session's address.
pub open spec fn session_path(cfg: ConfigView) -> Seq<char> {
    if cfg.ws_path.len() == 0 {
        DEFAULT_WS_PATH@
    } else {
        cfg.ws_path
    }
}

/// The credentials as pairs: the device's if there are any, else the listener's.
pub open spec fn credentials(cfg: ConfigView) -> Seq<(Seq<char>, Seq<char>)> {
    match cfg.device {
        Some((id, secret)) => seq![("client-id"@, id), ("client-secret"@, secret)],
        None => match cfg.listener {
            Some(token) => seq![("access-token"@, token)],
            None => Seq::empty(),
        },
    }
}

/// The scheme that an endpoint's own becomes: `ws` for `http` and `wss` for `https`, else the same.
pub open spec fn session_scheme(scheme: Seq<char>) -> Seq<char> {
    match scheme_change(scheme) {
        Ok(Some(s)) => s,
        _ => scheme,
    }
}

/// What holds of the address `u` of a session: it is a WebSocket address, as safe as the endpoint
/// and at the path asked for by default, and the credentials stand behind the endpoint's own
/// parameters.
pub open spec fn is_session_url(u: url::Url, cfg: ConfigView) -> bool {
    &&& parsed(full_endpoint(cfg.endpoint)) is Ok
    &&& ({
        let given = parsed(full_endpoint(cfg.endpoint))->Ok_0;
        &&& scheme_of(u) == session_scheme(scheme_of(given))
        &&& scheme_of(u) == "ws"@ || scheme_of(u) == "wss"@
        &&& pairs_of(u) == pairs_of(given) + credentials(cfg)
    })
    &&& cfg.ws_path.len() == 0 ==> path_of(u) == DEFAULT_WS_PATH@
}

/// Whether an endpoint makes no address: it is empty, does not parse, or has a foreign scheme.
pub open spec fn refused(cfg: ConfigView) -> bool {
    ||| text::trimmed(cfg.endpoint).len() == 0
    ||| parsed(full_endpoint(cfg.endpoint)) is Err
    ||| scheme_change(scheme_of(parsed(full_endpoint(cfg.endpoint))->Ok_0)) is Err
}

/// The address with the credentials in its query: the device's if there are any, else the
/// listener's.
pub open spec fn with_credentials(u: url::Url, cfg: ConfigView) -> url::Url {
    match cfg.device {
        Some((id, secret)) => with_pair(
            with_pair(u, "client-id"@, id),
            "client-secret"@,
            secret,
        ),
        None => match cfg.listener {
            Some(token) => with_pair(u, "access-token"@, token),
            None => u,
        },
    }
}

/// The address behind a scheme that is right: path and credentials.
pub open spec fn completed(u: url::Url, cfg: ConfigView) -> url::Url {
    with_credentials(with_query(with_path(u, session_path(cfg))), cfg)
}

/// The address of a session, or why there is none.
pub open spec fn ws_url(cfg: ConfigView) -> Result<url::Url, Seq<char>> {
    if text::trimmed(cfg.endpoint).len() == 0 {
        Err("tracking: Endpoint is required"@)
    } else {
        match parsed(full_endpoint(cfg.endpoint)) {
            Err(e) => Err("tracking: bad endpoint: "@ + e),
            Ok(u) => match scheme_change(scheme_of(u)) {
                Err(e) => Err(e),
                Ok(None) => Ok(completed(u, cfg)),
                Ok(Some(s)) => match with_scheme(u, s) {
                    None => Err("tracking: cannot set "@ + s + " scheme"@),
                    Some(v) => Ok(completed(v, cfg)),
                },
            },
        }
    }
}

/// What the credentials add to an address.
pub open spec fn credentials_len(cfg: ConfigView) -> int {
    match cfg.device {
        Some((id, secret)) => pair_len("client-id"@, id) + pair_len("client-secret"@, secret),
        None => match cfg.listener {
            Some(token) => pair_len("access-token"@, token),
            None => 0,
        },
    }
}

/// The most that path and credentials can add to an address.
pub open spec fn growth(cfg: ConfigView) -> int {
    path_max(session_path(cfg)) + 4 + credentials_len(cfg)
}

/// Whether the address is sure to stay below 4 GiB, the most an address can have.
pub open spec fn addressable(cfg: ConfigView) -> bool {
    match parsed(full_endpoint(cfg.endpoint)) {
        Ok(u) => url_text(u).len() + growth(cfg) < u32::MAX,
        Err(_) => true,
    }
}

fn add_credentials(u: &mut url::Url, cfg: &Config)
    requires
        url_text(*old(u)).len() + credentials_len(cfg@) < u32::MAX,
    ensures
        *final(u) == with_credentials(*old(u), cfg@),
        scheme_of(*final(u)) == scheme_of(*old(u)),
        path_of(*final(u)) == path_of(*old(u)),
        pairs_of(*final(u)) == pairs_of(*old(u)) + credentials(cfg@),
{
    let ghost before = pairs_of(*u);
    match &cfg.device {
        Some(d) => {
            append_pair(u, "client-id", d.client_id.as_str());
            append_pair(u, "client-secret", d.client_secret.as_str());
        },
        None => {
            if let Some(l) = &cfg.listener {
                append_pair(u, "access-token", l.access_token.as_str());
            }
        },
    }
    assert(pairs_of(*u) =~= before + credentials(cfg@));
}

/// The characters that a pair takes.
fn measure_pair(name: &str, value: &str) -> (r: u128)
    ensures
        r == pair_len(name@, value@),
        r <= usize::MAX + 1,
{
    let empty = String::new();
    assert(empty@ =~= Seq::<char>::empty());
    let pair = encoding::form_append(empty, name, value);
    pair.as_str().unicode_len() as u128 + 1
}

/// The endpoint of a session: the trimmed text with a scheme in front, nothing where it is empty.
pub fn normalize_endpoint(endpoint: &str) -> (r: Option<String>)
    ensures
        r is None <==> text::trimmed(endpoint@).len() == 0,
        r is Some ==> r->0@ == full_endpoint(endpoint@),
{
    let raw = text::trim(endpoint);
    if raw.as_str().unicode_len() == 0 {
        return None;
    }
    if text::has_scheme_mark(raw.as_str()) {
        Some(raw)
    } else {
        let mut s = "ws://".to_owned();
        s.append(raw.as_str());
        Some(s)
    }
}

/// Normalizes the endpoint to ws or wss and appends path and credentials.
pub fn build_ws_url(cfg: &Config) -> (r: Result<url::Url, String>)
    requires
        addressable(cfg@),
    ensures
        match ws_url(cfg@) {
            Ok(u) => r == Ok::<url::Url, String>(u),
            Err(e) => r is Err && r->Err_0@ == e,
        },
        r is Err <==> refused(cfg@),
        r is Ok ==> is_session_url(r->Ok_0, cfg@),
{
    let raw = match normalize_endpoint(cfg.endpoint.as_str()) {
        None => return Err("tracking: Endpoint is required".to_owned()),
        Some(raw) => raw,
    };
    let mut u = match parse_url(raw.as_str()) {
        Ok(u) => u,
        Err(e) => {
            let mut s = "tracking: bad endpoint: ".to_owned();
            s.append(e.as_str());
            return Err(s);
        },
    };
    proof {
        reveal_strlit("ws");
        reveal_strlit("wss");
        reveal_strlit("/v2/ws");
    }
    let change = choose_scheme(scheme(&u))?;
    if let Some(s) = change {
        if !set_scheme(&mut u, s) {
            return Err(text::concat3("tracking: cannot set ", s, " scheme"));
        }
    }
    if cfg.ws_path.as_str().unicode_len() == 0 {
        set_path(&mut u, DEFAULT_WS_PATH);
    } else {
        set_path(&mut u, cfg.ws_path.as_str());
    }
    open_query(&mut u);
    add_credentials(&mut u, cfg);
    Ok(u)
}

/// [`build_ws_url`] where the address is sure to stay below 4 GiB; nothing where it is not.
pub fn try_build_ws_url(cfg: &Config) -> (r: Option<Result<url::Url, String>>)
    ensures
        r is Some <==> addressable(cfg@) || text::trimmed(cfg.endpoint@).len() == 0,
        r is Some ==> match ws_url(cfg@) {
            Ok(u) => r->0 == Ok::<url::Url, String>(u),
            Err(e) => r->0 is Err && r->0->Err_0@ == e,
        },
        r is Some ==> (r->0 is Err <==> refused(cfg@)),
        r is Some && r->0 is Ok ==> is_session_url(r->0->Ok_0, cfg@),
{
    let raw = match normalize_endpoint(cfg.endpoint.as_str()) {
        None => return Some(Err("tracking: Endpoint is required".to_owned())),
        Some(raw) => raw,
    };
    match parse_url(raw.as_str()) {
        Err(_) => {},
        Ok(u) => {
            let len: u128 = text_of(&u).unicode_len() as u128;
            let path = if cfg.ws_path.as_str().unicode_len() == 0 {
                encoding::encode_segment(DEFAULT_WS_PATH)
            } else {
                encoding::encode_segment(cfg.ws_path.as_str())
            };
            let mut more: u128 = path.as_str().unicode_len() as u128 + 4;
            match &cfg.device {
                Some(d) => {
                    more = more + measure_pair("client-id", d.client_id.as_str());
                    more = more + measure_pair("client-secret", d.client_secret.as_str());
                },
                None => {
                    if let Some(l) = &cfg.listener {
                        more = more + measure_pair("access-token", l.access_token.as_str());
                    }
                },
            }
            if len + more >= u32::MAX as u128 {
                return None;
            }
        },
    }
    Some(build_ws_url(cfg))
}

/// How an endpoint is read: without white space around it, and as a `ws` address where it names no
/// scheme.
pub proof fn law_endpoint_gets_a_scheme(endpoint: Seq<char>)
    ensures
        ({
            let raw = text::trimmed(endpoint);
            let marked = exists|i: int|
                0 <= i && i + 3 <= raw.len() && #[trigger] raw[i] == ':' && raw[i + 1] == '/'
                    && raw[i + 2] == '/';
            &&& marked ==> full_endpoint(endpoint) == raw
            &&& !marked ==> full_endpoint(endpoint) == seq!['w', 's', ':', '/', '/'] + raw
        }),
{
    reveal_strlit("://");
    reveal_strlit("ws://");
    let raw = text::trimmed(endpoint);
    let mark = "://"@;
    assert(mark =~= seq![':', '/', '/']);
    assert("ws://"@ =~= seq!['w', 's', ':', '/', '/']);
    if text::has_part(raw, mark) {
        let i = choose|i: int|
            0 <= i <= raw.len() - mark.len() && #[trigger] raw.subrange(i, i + mark.len()) == mark;
        let part = raw.subrange(i, i + 3);
        assert(part[0] == ':' && part[1] == '/' && part[2] == '/');
        assert(raw[i] == ':' && raw[i + 1] == '/' && raw[i + 2] == '/');
    }
    if exists|i: int|
        0 <= i && i + 3 <= raw.len() && #[trigger] raw[i] == ':' && raw[i + 1] == '/' && raw[i + 2]
            == '/' {
        let i = choose|i: int|
            0 <= i && i + 3 <= raw.len() && #[trigger] raw[i] == ':' && raw[i + 1] == '/' && raw[i
                + 2] == '/';
        assert(raw.subrange(i, i + mark.len()) =~= mark);
    }
}

/// A session is as safe as its endpoint says: `https` and `wss` give `wss`, `http` and `ws` give
/// `ws`, and nothing else gives a session.
pub proof fn law_session_is_as_safe_as_its_endpoint(scheme: Seq<char>)
    ensures
        scheme == "https"@ || scheme == "wss"@ ==> session_scheme(scheme) == "wss"@,
        scheme == "http"@ || scheme == "ws"@ ==> session_scheme(scheme) == "ws"@,
        scheme_change(scheme) is Err <==> scheme != "http"@ && scheme != "https"@ && scheme
            != "ws"@ && scheme != "wss"@,
{
    reveal_strlit("http");
    reveal_strlit("https");
    reveal_strlit("ws");
    reveal_strlit("wss");
    assert("http"@.len() == 4 && "https"@.len() == 5 && "ws"@.len() == 2 && "wss"@.len() == 3);
}

/// What the address of a session is made of: the endpoint with the scheme of a WebSocket, the path
/// asked for or `/v2/ws`, and behind the endpoint's own parameters the device's id and secret, or
/// without a device the listener's token.
pub proof fn law_session_address_is_made_of(cfg: ConfigView)
    requires
        ws_url(cfg) is Ok,
    ensures
        ({
            let given = parsed(full_endpoint(cfg.endpoint));
            let scheme = scheme_of(given->Ok_0);
            let base = if scheme == "http"@ {
                with_scheme(given->Ok_0, "ws"@)->0
            } else if scheme == "https"@ {
                with_scheme(given->Ok_0, "wss"@)->0
            } else {
                given->Ok_0
            };
            let path = if cfg.ws_path.len() > 0 {
                cfg.ws_path
            } else {
                "/v2/ws"@
            };
            let open = with_query(with_path(base, path));
            &&& given is Ok
            &&& cfg.device matches Some(d) ==> ws_url(cfg)->Ok_0 == with_pair(
                with_pair(open, "client-id"@, d.0),
                "client-secret"@,
                d.1,
            )
            &&& cfg.device is None ==> (cfg.listener matches Some(token) ==> ws_url(cfg)->Ok_0
                == with_pair(open, "access-token"@, token))
            &&& cfg.device is None && cfg.listener is None ==> ws_url(cfg)->Ok_0 == open
        }),
        ({
            let c = credentials(cfg);
            &&& cfg.device matches Some(d) ==> c.len() == 2 && c[0] == ("client-id"@, d.0) && c[1]
                == ("client-secret"@, d.1)
            &&& cfg.device is None ==> (cfg.listener matches Some(token) ==> c.len() == 1 && c[0]
                == ("access-token"@, token))
            &&& cfg.device is None && cfg.listener is None ==> c.len() == 0
        }),
{
}

} // verus!
