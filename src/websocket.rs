//! Recognising WebSocket upgrade requests.

use vstd::prelude::*;
use crate::http::{HttpRequest, RequestView, header_value};
use crate::text::{contains, contains_text};

verus! {

/// The lower case of a text, as `str::to_lowercase` gives it.
pub uninterp spec fn lower_of(s: Seq<char>) -> Seq<char>;

/// Relies on `str::to_lowercase`: the result depends on the characters alone.
#[verifier::external_body]
fn lowercase(s: &str) -> (r: String)
    ensures
        r@ == lower_of(s@),
{
    s.to_lowercase()
}

/// An upgrade: a GET whose `Upgrade` header is "websocket" in lower case,
/// whose `Connection` header holds "upgrade" in lower case, and which has a
/// `Sec-WebSocket-Key` header.
pub open spec fn is_upgrade(req: RequestView) -> bool {
    upgrade_rule(
        req.method,
        match header_value(req.headers, "upgrade"@) {
            Some(u) => Some(lower_of(u)),
            None => None,
        },
        match header_value(req.headers, "connection"@) {
            Some(c) => Some(lower_of(c)),
            None => None,
        },
        header_value(req.headers, "sec-websocket-key"@) is Some,
    )
}

/// The upgrade rule over the method and the lower-cased `Upgrade` and
/// `Connection` values: GET, "websocket", a value holding "upgrade", and a key.
pub open spec fn upgrade_rule(method: Seq<char>, upgrade: Option<Seq<char>>, connection: Option<Seq<char>>, has_key: bool) -> bool {
    &&& method == "GET"@
    &&& upgrade == Some("websocket"@)
    &&& connection matches Some(c) && contains_text(c, "upgrade"@)
    &&& has_key
}

pub struct WebSocketProxy {
    pub backend_addr: String,
}

impl WebSocketProxy {
    pub fn new(backend_addr: String) -> (r: Self)
        ensures
            r.backend_addr == backend_addr,
    {
        WebSocketProxy { backend_addr }
    }

    pub fn is_websocket_upgrade(&self, req: &HttpRequest) -> (r: bool)
        ensures
            r == is_upgrade(req@),
    {
        let upgrade = match req.header("upgrade") {
            Some(u) => Some(lowercase(u.as_str())),
            None => None,
        };
        let connection = match req.header("connection") {
            Some(c) => Some(lowercase(c.as_str())),
            None => None,
        };
        let key = req.header("sec-websocket-key").is_some();
        let up: Option<&str> = match &upgrade {
            Some(u) => Some(u.as_str()),
            None => None,
        };
        let conn: Option<&str> = match &connection {
            Some(c) => Some(c.as_str()),
            None => None,
        };
        Self::upgrade_requested(req.method.as_str(), up, conn, key)
    }

    /// The upgrade rule (see `upgrade_rule`) over already lower-cased header values.
    pub fn upgrade_requested(method: &str, upgrade: Option<&str>, connection: Option<&str>, has_key: bool) -> (r: bool)
        ensures
            r == upgrade_rule(
                method@,
                match upgrade {
                    Some(u) => Some(u@),
                    None => None,
                },
                match connection {
                    Some(c) => Some(c@),
                    None => None,
                },
                has_key,
            ),
    {
        if !crate::load_balancing::str_eq(method, "GET") {
            return false;
        }
        let up = match upgrade {
            Some(u) => crate::load_balancing::str_eq(u, "websocket"),
            None => false,
        };
        let conn = match connection {
            Some(c) => contains(c, "upgrade"),
            None => false,
        };
        up && conn && has_key
    }
}

} // verus!
