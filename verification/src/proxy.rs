//! Planning the reverse proxy's upstream requests: the loopback `Host` and
//! `Origin` rewrite, upstream targets, failure replies and the WebSocket
//! relay's stop rule.
use vstd::prelude::*;

use crate::text::{after_last, all_decimal, ascii_lowercase, eq_ignore_ascii_case_lower, has_char, is_decimal, text_after_last};

verus! {

/// The authority (`host[:port]`, with any user info) of `s` read as a URI, or
/// `None` when `s` is not a URI or has no authority; as the `http` crate's
/// `Uri` parser and `Uri::authority` give it.
pub uninterp spec fn uri_authority(s: Seq<char>) -> Option<Seq<char>>;

/// Whether `s` parses as a URI, as the `http` crate's `Uri` parser decides.
pub uninterp spec fn uri_parses(s: Seq<char>) -> bool;

/// Calls `str::parse::<http::Uri>`: whether `s` parses as a URI, named
/// `uri_parses(s)`.
#[verifier::external_body]
pub(crate) fn parses_as_uri(s: &str) -> (ok: bool)
    ensures
        ok == uri_parses(s@),
{
    s.parse::<http::Uri>().is_ok()
}

/// Calls `str::parse::<http::Uri>` and `Uri::authority`: the authority of
/// `backend`, named `uri_authority(backend)`.
#[verifier::external_body]
pub(crate) fn backend_authority(backend: &str) -> (r: Option<String>)
    ensures
        match r {
            Some(a) => uri_authority(backend@) == Some(a@),
            None => uri_authority(backend@) is None,
        },
{
    match backend.parse::<http::Uri>() {
        Ok(uri) => uri.authority().map(|a| a.as_str().to_string()),
        Err(_) => None,
    }
}

/// Host of every rewritten `Host` header.
pub const LOOPBACK_HOST: &'static str = "127.0.0.1:";

/// Scheme prefix of the rewritten `Origin` header.
pub const HTTP_SCHEME: &'static str = "http://";

/// Scheme prefix of WebSocket upstream targets.
pub const WS_SCHEME: &'static str = "ws://";

/// Port used for the loopback `Host` when the backend names none.
pub const DEFAULT_PORT: &'static str = "3080";

/// Path used when a request has none.
pub const ROOT_PATH: &'static str = "/";

/// The port an authority names: the decimal digits after its last `:`, or
/// `DEFAULT_PORT` when it names none.
pub open spec fn port_of(authority: Seq<char>) -> Seq<char> {
    let p = after_last(authority, ':');
    if authority.contains(':') && is_decimal(p) {
        p
    } else {
        DEFAULT_PORT@
    }
}

/// The `Host` that upstream sees for a backend with authority `authority`:
/// loopback, on the backend's port.
pub open spec fn loopback_host(authority: Seq<char>) -> Seq<char> {
    LOOPBACK_HOST@ + port_of(authority)
}

/// Where the proxy sends requests, and how it rewrites them.
pub struct ProxyState {
    /// Connect target, e.g. `http://host.docker.internal:3080`.
    pub backend_origin: String,
    /// The connect target's authority, e.g. `host.docker.internal:3080`.
    pub backend_authority: String,
    /// `Host` header sent upstream: always the loopback form.
    pub rewrite_host: String,
    /// `Origin` header sent upstream: always the loopback form.
    pub rewrite_origin: String,
}

/// The proxy state for `backend` whose authority is `authority`.
pub open spec fn proxy_for(p: ProxyState, backend: Seq<char>, authority: Seq<char>) -> bool {
    &&& p.backend_origin@ == backend
    &&& p.backend_authority@ == authority
    &&& p.rewrite_host@ == loopback_host(authority)
    &&& p.rewrite_origin@ == HTTP_SCHEME@ + loopback_host(authority)
}

/// An upstream request plan.
pub struct UpstreamRequest {
    /// The full upstream URI.
    pub target: String,
    /// The `Host` header to send.
    pub host: String,
    /// The `Origin` header to send, when the request carried one.
    pub origin: Option<String>,
}

/// The path and query of a request, or `/` when it has none.
pub open spec fn path_or_root(path_and_query: Option<Seq<char>>) -> Seq<char> {
    match path_and_query {
        Some(p) => p,
        None => ROOT_PATH@,
    }
}

impl ProxyState {
    /// The proxy state for `backend`, given its authority.
    pub fn with_authority(backend: &str, authority: &str) -> (p: Self)
        ensures
            proxy_for(p, backend@, authority@),
    {
        let after = text_after_last(authority, ':');
        let mut rewrite_host = String::from_str(LOOPBACK_HOST);
        if has_char(authority, ':') && all_decimal(after.as_str()) {
            rewrite_host.append(after.as_str());
        } else {
            rewrite_host.append(DEFAULT_PORT);
        }
        let mut rewrite_origin = String::from_str(HTTP_SCHEME);
        rewrite_origin.append(rewrite_host.as_str());
        ProxyState {
            backend_origin: backend.to_owned(),
            backend_authority: authority.to_owned(),
            rewrite_host,
            rewrite_origin,
        }
    }

    /// The proxy state for the backend URI `backend`, which must have an
    /// authority.
    pub fn new(backend: &str) -> (p: Self)
        requires
            uri_authority(backend@) is Some,
        ensures
            proxy_for(p, backend@, uri_authority(backend@)->0),
    {
        match backend_authority(backend) {
            Some(a) => ProxyState::with_authority(backend, a.as_str()),
            // Unreachable: the precondition names an authority.
            None => ProxyState::with_authority(backend, ""),
        }
    }

    /// The proxy state for the backend URI `backend`; `None` when it is not a
    /// URI with an authority.
    pub fn try_new(backend: &str) -> (r: Option<Self>)
        ensures
            match r {
                Some(p) => uri_authority(backend@) is Some && proxy_for(p, backend@, uri_authority(backend@)->0),
                None => uri_authority(backend@) is None,
            },
    {
        match backend_authority(backend) {
            Some(_) => Some(ProxyState::new(backend)),
            None => None,
        }
    }

    /// The upstream URI for a request with path and query `path_and_query`:
    /// the same path and query on the backend.
    pub open spec fn target_text(&self, path_and_query: Option<Seq<char>>) -> Seq<char> {
        self.backend_origin@ + path_or_root(path_and_query)
    }

    /// Plan the upstream request for one with path and query
    /// `path_and_query`: same path and query on the backend, `Host` rewritten
    /// to loopback, and `Origin` rewritten when present. `BadTarget` when the
    /// upstream URI does not parse.
    pub fn plan_request(&self, path_and_query: Option<&str>, has_origin: bool) -> (r: Result<
        UpstreamRequest,
        ProxyFailure,
    >)
        ensures
            match r {
                Ok(plan) => {
                    &&& uri_parses(self.target_text(opt_str_text(path_and_query)))
                    &&& plan.target@ == self.target_text(opt_str_text(path_and_query))
                    &&& plan.host@ == self.rewrite_host@
                    &&& match plan.origin {
                        Some(o) => has_origin && o@ == self.rewrite_origin@,
                        None => !has_origin,
                    }
                },
                Err(f) => f == ProxyFailure::BadTarget && !uri_parses(self.target_text(opt_str_text(path_and_query))),
            },
    {
        let mut target = self.backend_origin.clone();
        match path_and_query {
            Some(p) => target.append(p),
            None => target.append(ROOT_PATH),
        }
        if !parses_as_uri(target.as_str()) {
            return Err(ProxyFailure::BadTarget);
        }
        let origin = if has_origin {
            Some(self.rewrite_origin.clone())
        } else {
            None
        };
        Ok(UpstreamRequest { target, host: self.rewrite_host.clone(), origin })
    }

    /// The upstream WebSocket URI for a request with path and query
    /// `path_and_query`: `ws://`, the backend's authority (the connect
    /// target), and the same path. The `Host` sent with it is
    /// `rewrite_host`.
    pub fn ws_target(&self, path_and_query: Option<&str>) -> (t: String)
        ensures
            t@ == WS_SCHEME@ + self.backend_authority@ + path_or_root(opt_str_text(path_and_query)),
    {
        let mut t = String::from_str(WS_SCHEME);
        t.append(self.backend_authority.as_str());
        match path_and_query {
            Some(p) => t.append(p),
            None => t.append(ROOT_PATH),
        }
        t
    }
}

/// The text of an optional string.
pub open spec fn opt_str_text(o: Option<&str>) -> Option<Seq<char>> {
    match o {
        Some(s) => Some(s@),
        None => None,
    }
}

/// The word an `Upgrade` header must hold (in any ASCII case) for a
/// WebSocket upgrade.
pub const WEBSOCKET: &'static str = "websocket";

/// Whether a request whose `Upgrade` header is `upgrade` asks for a
/// WebSocket.
pub fn is_websocket_upgrade(upgrade: Option<&str>) -> (r: bool)
    ensures
        r == match upgrade {
            Some(u) => ascii_lowercase(u@) == WEBSOCKET@,
            None => false,
        },
{
    match upgrade {
        Some(u) => eq_ignore_ascii_case_lower(u, WEBSOCKET),
        None => false,
    }
}

/// Why an upstream exchange failed.
#[derive(Debug, Clone, Copy, PartialEq, Eq, Structural)]
pub enum ProxyFailure {
    /// The upstream URI could not be formed.
    BadTarget,
    /// The backend took too long to answer.
    RequestTimeout,
    /// The backend could not be reached.
    Unavailable,
    /// The backend's reply body broke off.
    BodyError,
    /// The backend's reply body took too long.
    BodyTimeout,
}

/// The HTTP status answered for `f`.
pub open spec fn failure_status_of(f: ProxyFailure) -> u16 {
    match f {
        ProxyFailure::BadTarget => 400,
        ProxyFailure::RequestTimeout => 504,
        ProxyFailure::Unavailable => 502,
        ProxyFailure::BodyError => 502,
        ProxyFailure::BodyTimeout => 504,
    }
}

/// Prefix of the reply body when the backend is unreachable.
pub const UNAVAILABLE_PREFIX: &'static str = "upstream unavailable: ";

/// Prefix of the reply body when the backend's body breaks off.
pub const BODY_ERROR_PREFIX: &'static str = "upstream body error: ";

/// The reply body for `f` with error text `detail` (none for the others).
pub open spec fn failure_text_of(f: ProxyFailure, detail: Seq<char>) -> Option<Seq<char>> {
    match f {
        ProxyFailure::Unavailable => Some(UNAVAILABLE_PREFIX@ + detail),
        ProxyFailure::BodyError => Some(BODY_ERROR_PREFIX@ + detail),
        _ => None,
    }
}

impl ProxyFailure {
    /// The HTTP status answered for this failure.
    pub fn status(&self) -> (s: u16)
        ensures
            s == failure_status_of(*self),
    {
        match self {
            ProxyFailure::BadTarget => 400,
            ProxyFailure::RequestTimeout => 504,
            ProxyFailure::Unavailable => 502,
            ProxyFailure::BodyError => 502,
            ProxyFailure::BodyTimeout => 504,
        }
    }

    /// The reply body for this failure with error text `detail`.
    pub fn body(&self, detail: &str) -> (b: Option<String>)
        ensures
            match b {
                Some(t) => failure_text_of(*self, detail@) == Some(t@),
                None => failure_text_of(*self, detail@) is None,
            },
    {
        match self {
            ProxyFailure::Unavailable => {
                let mut t = String::from_str(UNAVAILABLE_PREFIX);
                t.append(detail);
                Some(t)
            },
            ProxyFailure::BodyError => {
                let mut t = String::from_str(BODY_ERROR_PREFIX);
                t.append(detail);
                Some(t)
            },
            _ => None,
        }
    }
}

/// The kind of a WebSocket message.
#[derive(Debug, Clone, Copy, PartialEq, Eq, Structural)]
pub enum FrameKind {
    Text,
    Binary,
    Ping,
    Pong,
    Close,
}

/// Whether a relay direction keeps going after forwarding a message of kind
/// `kind`, the send having succeeded (`sent`) or not: it stops on a failed
/// send or once a close message has gone through.
pub fn relay_continues(kind: &FrameKind, sent: bool) -> (r: bool)
    ensures
        r == (sent && !(*kind is Close)),
{
    let closing = match kind {
        FrameKind::Close => true,
        _ => false,
    };
    sent && !closing
}

} // verus!
