//! Routing of one request by method and path, and the static-file path rules.

use vstd::prelude::*;
use crate::http::{origin_form, to_origin_form, first_index_of, index_of};
use crate::text::{split_on, split_text};

verus! {

/// Where a request goes.
#[derive(PartialEq, Eq, Structural, Clone, Copy, Debug)]
pub enum Route {
    /// `OPTIONS`: an empty 200 with permissive CORS headers.
    Preflight,
    /// The HTML statistics page.
    StatusHtml,
    /// The JSON statistics object.
    StatusJson,
    /// `GET /api/config`.
    ConfigRead,
    /// `PUT` or `POST /api/config`.
    ConfigWrite,
    /// To a backend of the pool.
    Proxy,
    /// To the static-file tree.
    StaticFile,
    /// Refused with 405.
    MethodNotAllowed,
}

/// The path of a request target: its origin form up to any `?`.
pub open spec fn path_of(uri: Seq<char>) -> Seq<char> {
    let o = origin_form(uri);
    match first_index_of(o, '?') {
        Some(i) => o.take(i as int),
        None => o,
    }
}

pub fn request_path(uri: &str) -> (r: String)
    ensures
        r@ == path_of(uri@),
{
    let o = to_origin_form(uri);
    match index_of(o.as_str(), '?') {
        Some(i) => o.as_str().substring_char(0, i).to_owned(),
        None => o,
    }
}

/// The routing rule. `OPTIONS` is always a preflight. `GET` on the stats
/// path, `/status` or `/api/status` gives the statistics; `/api/config` reads
/// (`GET`) or replaces (`PUT`, `POST`) the configuration. Any other `GET`
/// goes to the pool when there is one and to the static tree otherwise;
/// `PUT` and `POST` elsewhere go to the pool when there is one. Everything
/// else is refused.
pub open spec fn route_of(method: Seq<char>, path: Seq<char>, stats_path: Option<Seq<char>>, has_backend: bool) -> Route {
    if method == "OPTIONS"@ {
        Route::Preflight
    } else if method == "GET"@ && (stats_path == Some(path) || path == "/status"@) {
        Route::StatusHtml
    } else if method == "GET"@ && path == "/api/status"@ {
        Route::StatusJson
    } else if method == "GET"@ && path == "/api/config"@ {
        Route::ConfigRead
    } else if (method == "PUT"@ || method == "POST"@) && path == "/api/config"@ {
        Route::ConfigWrite
    } else if method == "GET"@ {
        if has_backend { Route::Proxy } else { Route::StaticFile }
    } else if (method == "PUT"@ || method == "POST"@) && has_backend {
        Route::Proxy
    } else {
        Route::MethodNotAllowed
    }
}

pub fn route(method: &str, path: &str, stats_path: Option<&str>, has_backend: bool) -> (r: Route)
    ensures
        r == route_of(method@, path@, match stats_path {
            Some(s) => Some(s@),
            None => None,
        }, has_backend),
{
    let is_get = crate::load_balancing::str_eq(method, "GET");
    let is_put_post = crate::load_balancing::str_eq(method, "PUT") || crate::load_balancing::str_eq(method, "POST");
    if crate::load_balancing::str_eq(method, "OPTIONS") {
        return Route::Preflight;
    }
    let on_stats = match stats_path {
        Some(s) => crate::load_balancing::str_eq(path, s),
        None => false,
    };
    if is_get && (on_stats || crate::load_balancing::str_eq(path, "/status")) {
        return Route::StatusHtml;
    }
    if is_get && crate::load_balancing::str_eq(path, "/api/status") {
        return Route::StatusJson;
    }
    let on_config = crate::load_balancing::str_eq(path, "/api/config");
    if is_get && on_config {
        return Route::ConfigRead;
    }
    if is_put_post && on_config {
        return Route::ConfigWrite;
    }
    if is_get {
        return if has_backend { Route::Proxy } else { Route::StaticFile };
    }
    if is_put_post && has_backend {
        return Route::Proxy;
    }
    Route::MethodNotAllowed
}

/// The segments of a static-file path below the root: one leading `/` is
/// dropped, then the text is split on `/`; empty segments, and `.` past the
/// first segment, are skipped; `..` anywhere, or `.` as the first segment,
/// makes the path invalid (`None`).
pub open spec fn static_segments(path: Seq<char>) -> Option<Seq<Seq<char>>> {
    clean_segments(strip_slash(path))
}

/// The text without one leading `/`.
pub open spec fn strip_slash(path: Seq<char>) -> Seq<char> {
    if path.len() > 0 && path[0] == '/' { path.skip(1) } else { path }
}

/// Whether a segment is `..`.
pub open spec fn has_parent_segment(parts: Seq<Seq<char>>) -> bool {
    exists|i: int| 0 <= i < parts.len() && #[trigger] parts[i] == ".."@
}

pub open spec fn clean_segments(clean: Seq<char>) -> Option<Seq<Seq<char>>> {
    if clean.len() == 0 {
        Some(Seq::empty())
    } else if split_on(clean, '/')[0] == "."@ || has_parent_segment(split_on(clean, '/')) {
        None
    } else {
        Some(kept_segments(split_on(clean, '/')))
    }
}

/// The segments that name something: neither empty nor `.`.
pub open spec fn kept_segments(parts: Seq<Seq<char>>) -> Seq<Seq<char>>
    decreases parts.len(),
{
    if parts.len() == 0 {
        parts
    } else if parts.last().len() == 0 || parts.last() == "."@ {
        kept_segments(parts.drop_last())
    } else {
        kept_segments(parts.drop_last()).push(parts.last())
    }
}

pub fn resolve_static_path(path: &str) -> (r: Option<Vec<String>>)
    ensures
        match r {
            Some(v) => static_segments(path@) == Some(v@.map_values(|s: String| s@)),
            None => static_segments(path@) is None,
        },
{
    let n = path.unicode_len();
    let clean = if n > 0 && path.get_char(0) == '/' { path.substring_char(1, n) } else { path };
    assert(clean@ == strip_slash(path@));
    if clean.unicode_len() == 0 {
        let v: Vec<String> = Vec::new();
        assert(v@.map_values(|s: String| s@) =~= Seq::<Seq<char>>::empty());
        return Some(v);
    }
    let parts = split_text(clean, '/');
    let ghost ps = split_on(clean@, '/');
    proof {
        crate::text::lemma_split_nonempty(clean@, '/');
        reveal_strlit(".");
        reveal_strlit("..");
    }
    assert(parts@[0]@ == ps[0]);
    if crate::load_balancing::string_eq_str(&parts[0], ".") {
        assert(ps[0] == "."@);
        return None;
    }
    let mut kept: Vec<String> = Vec::new();
    let mut i: usize = 0;
    while i < parts.len()
        invariant
            ps == split_on(clean@, '/'),
            clean@.len() != 0,
            clean@ == strip_slash(path@),
            ps[0] != "."@,
            parts@.len() == ps.len(),
            forall|j: int| 0 <= j < parts@.len() ==> #[trigger] parts@[j]@ == ps[j],
            i <= parts@.len(),
            forall|j: int| 0 <= j < i ==> ps[j] != ".."@,
            kept@.map_values(|s: String| s@) == kept_segments(ps.take(i as int)),
        decreases parts@.len() - i,
    {
        assert(ps.take(i as int + 1).drop_last() =~= ps.take(i as int));
        let p = &parts[i];
        if crate::load_balancing::string_eq_str(p, "..") {
            assert(ps[i as int] == ".."@);
            assert(has_parent_segment(ps));
            return None;
        }
        if p.as_str().unicode_len() != 0 && !crate::load_balancing::string_eq_str(p, ".") {
            kept.push(p.clone());
            assert(kept@.map_values(|s: String| s@) =~= kept_segments(ps.take(i as int)).push(ps[i as int]));
        }
        i = i + 1;
    }
    assert(ps.take(ps.len() as int) =~= ps);
    Some(kept)
}

} // verus!
