//! The proxy's own model of HTTP messages: method, target, headers and a
//! fully buffered body.

use vstd::prelude::*;
use vstd::string::StringExecFns;
use crate::text::{eq_ignore_ascii_case, equals_ignore_ascii_case, has_prefix, starts_with};

verus! {

/// Headers as (name, value) texts, in order.
pub type HeaderSeq = Seq<(Seq<char>, Seq<char>)>;

pub open spec fn headers_view(hs: Seq<(String, String)>) -> HeaderSeq {
    hs.map_values(|h: (String, String)| (h.0@, h.1@))
}

/// The value of the first header called `name` (names compared without ASCII case).
pub open spec fn header_value(hs: HeaderSeq, name: Seq<char>) -> Option<Seq<char>>
    decreases hs.len(),
{
    if hs.len() == 0 {
        None
    } else if eq_ignore_ascii_case(hs[0].0, name) {
        Some(hs[0].1)
    } else {
        header_value(hs.drop_first(), name)
    }
}

/// The headers without any called `name`.
pub open spec fn strip_header(hs: HeaderSeq, name: Seq<char>) -> HeaderSeq
    decreases hs.len(),
{
    if hs.len() == 0 {
        hs
    } else if eq_ignore_ascii_case(hs.last().0, name) {
        strip_header(hs.drop_last(), name)
    } else {
        strip_header(hs.drop_last(), name).push(hs.last())
    }
}

/// The headers with every `name` header replaced by one `name: value` at the end.
pub open spec fn set_header_spec(hs: HeaderSeq, name: Seq<char>, value: Seq<char>) -> HeaderSeq {
    strip_header(hs, name).push((name, value))
}

pub fn copy_text(s: &String) -> (r: String)
    ensures
        r@ == s@,
{
    s.clone()
}

pub fn copy_bytes(b: &Vec<u8>) -> (r: Vec<u8>)
    ensures
        r@ == b@,
{
    let mut r: Vec<u8> = Vec::new();
    let mut i: usize = 0;
    while i < b.len()
        invariant
            i <= b@.len(),
            r@ == b@.take(i as int),
        decreases b@.len() - i,
    {
        r.push(b[i]);
        i = i + 1;
        assert(r@ =~= b@.take(i as int));
    }
    assert(b@.take(b@.len() as int) =~= b@);
    r
}

pub fn copy_headers(hs: &Vec<(String, String)>) -> (r: Vec<(String, String)>)
    ensures
        headers_view(r@) == headers_view(hs@),
{
    let mut r: Vec<(String, String)> = Vec::new();
    let mut i: usize = 0;
    while i < hs.len()
        invariant
            i <= hs@.len(),
            r@.len() == i,
            forall|j: int| 0 <= j < i ==> (#[trigger] r@[j]).0@ == hs@[j].0@ && r@[j].1@ == hs@[j].1@,
        decreases hs@.len() - i,
    {
        let (n, v) = (copy_text(&hs[i].0), copy_text(&hs[i].1));
        r.push((n, v));
        i = i + 1;
    }
    assert(headers_view(r@) =~= headers_view(hs@));
    r
}

/// Finds the first header called `name`.
pub fn find_header(hs: &Vec<(String, String)>, name: &str) -> (r: Option<String>)
    ensures
        match r {
            Some(v) => header_value(headers_view(hs@), name@) == Some(v@),
            None => header_value(headers_view(hs@), name@) is None,
        },
{
    let ghost h = headers_view(hs@);
    let mut i: usize = 0;
    assert(h.skip(0) =~= h);
    while i < hs.len()
        invariant
            h == headers_view(hs@),
            i <= hs@.len(),
            header_value(h, name@) == header_value(h.skip(i as int), name@),
        decreases hs@.len() - i,
    {
        assert(h.skip(i as int).drop_first() =~= h.skip(i as int + 1));
        assert(h.skip(i as int)[0] == (hs@[i as int].0@, hs@[i as int].1@));
        if equals_ignore_ascii_case(hs[i].0.as_str(), name) {
            return Some(copy_text(&hs[i].1));
        }
        i = i + 1;
    }
    assert(h.skip(i as int).len() == 0);
    None
}

/// Replaces every header called `name` by one `name: value`, placed last.
pub fn set_header(hs: &mut Vec<(String, String)>, name: &str, value: &str)
    ensures
        headers_view(final(hs)@) == set_header_spec(headers_view(old(hs)@), name@, value@),
{
    let ghost h = headers_view(hs@);
    let mut kept: Vec<(String, String)> = Vec::new();
    let mut i: usize = 0;
    while i < hs.len()
        invariant
            h == headers_view(hs@),
            i <= hs@.len(),
            headers_view(kept@) == strip_header(h.take(i as int), name@),
        decreases hs@.len() - i,
    {
        assert(h.take(i as int + 1).drop_last() =~= h.take(i as int));
        if !equals_ignore_ascii_case(hs[i].0.as_str(), name) {
            let (n, v) = (copy_text(&hs[i].0), copy_text(&hs[i].1));
            kept.push((n, v));
            assert(headers_view(kept@) =~= strip_header(h.take(i as int), name@).push(h[i as int]));
        }
        i = i + 1;
    }
    assert(h.take(hs@.len() as int) =~= h);
    kept.push((name.to_owned(), value.to_owned()));
    assert(headers_view(kept@) =~= set_header_spec(h, name@, value@));
    *hs = kept;
}

/// A request as the proxy sees it.
pub struct HttpRequest {
    pub method: String,
    pub uri: String,
    pub headers: Vec<(String, String)>,
    pub body: Vec<u8>,
}

pub struct RequestView {
    pub method: Seq<char>,
    pub uri: Seq<char>,
    pub headers: HeaderSeq,
    pub body: Seq<u8>,
}

impl View for HttpRequest {
    type V = RequestView;

    open spec fn view(&self) -> RequestView {
        RequestView {
            method: self.method@,
            uri: self.uri@,
            headers: headers_view(self.headers@),
            body: self.body@,
        }
    }
}

/// A fully buffered response.
pub struct HttpResponse {
    pub status: u16,
    pub headers: Vec<(String, String)>,
    pub body: Vec<u8>,
}

pub struct ResponseView {
    pub status: u16,
    pub headers: HeaderSeq,
    pub body: Seq<u8>,
}

impl View for HttpResponse {
    type V = ResponseView;

    open spec fn view(&self) -> ResponseView {
        ResponseView { status: self.status, headers: headers_view(self.headers@), body: self.body@ }
    }
}

impl HttpRequest {
    pub fn new(method: &str, uri: &str) -> (r: Self)
        ensures
            r@ == (RequestView { method: method@, uri: uri@, headers: Seq::empty(), body: Seq::empty() }),
    {
        let r = HttpRequest { method: method.to_owned(), uri: uri.to_owned(), headers: Vec::new(), body: Vec::new() };
        assert(r@.headers =~= Seq::<(Seq<char>, Seq<char>)>::empty());
        r
    }

    pub fn duplicate(&self) -> (r: Self)
        ensures
            r@ == self@,
    {
        HttpRequest {
            method: copy_text(&self.method),
            uri: copy_text(&self.uri),
            headers: copy_headers(&self.headers),
            body: copy_bytes(&self.body),
        }
    }

    pub fn header(&self, name: &str) -> (r: Option<String>)
        ensures
            match r {
                Some(v) => header_value(self@.headers, name@) == Some(v@),
                None => header_value(self@.headers, name@) is None,
            },
    {
        find_header(&self.headers, name)
    }
}

impl HttpResponse {
    pub fn new(status: u16, body: Vec<u8>) -> (r: Self)
        ensures
            r@ == (ResponseView { status, headers: Seq::empty(), body: body@ }),
    {
        let r = HttpResponse { status, headers: Vec::new(), body };
        assert(r@.headers =~= Seq::<(Seq<char>, Seq<char>)>::empty());
        r
    }

    pub fn duplicate(&self) -> (r: Self)
        ensures
            r@ == self@,
    {
        HttpResponse { status: self.status, headers: copy_headers(&self.headers), body: copy_bytes(&self.body) }
    }

    pub fn header(&self, name: &str) -> (r: Option<String>)
        ensures
            match r {
                Some(v) => header_value(self@.headers, name@) == Some(v@),
                None => header_value(self@.headers, name@) is None,
            },
    {
        find_header(&self.headers, name)
    }
}

/// The target of a request, in origin form: an absolute `http://host/path`
/// target loses its scheme and authority; any other target stays as it is.
pub open spec fn origin_form(uri: Seq<char>) -> Seq<char> {
    if has_prefix(uri, seq!['h', 't', 't', 'p', ':', '/', '/']) {
        let rest = uri.skip(7);
        match first_index_of(rest, '/') {
            Some(i) => rest.skip(i as int),
            None => seq!['/'],
        }
    } else {
        uri
    }
}

/// The first position of `c` in `s`.
pub open spec fn first_index_of(s: Seq<char>, c: char) -> Option<nat>
    decreases s.len(),
{
    if s.len() == 0 {
        None
    } else if s[0] == c {
        Some(0)
    } else {
        match first_index_of(s.drop_first(), c) {
            Some(i) => Some(i + 1),
            None => None,
        }
    }
}

pub fn index_of(s: &str, c: char) -> (r: Option<usize>)
    ensures
        match r {
            Some(i) => first_index_of(s@, c) == Some(i as nat) && i < s@.len(),
            None => first_index_of(s@, c) is None,
        },
{
    let n = s.unicode_len();
    let mut i: usize = 0;
    while i < n
        invariant
            n == s@.len(),
            i <= n,
            forall|j: int| 0 <= j < i ==> s@[j] != c,
        decreases n - i,
    {
        if s.get_char(i) == c {
            proof {
                lemma_first_index(s@, c, i as int);
            }
            return Some(i);
        }
        i = i + 1;
    }
    proof {
        lemma_first_index_none(s@, c);
    }
    None
}

proof fn lemma_first_index(s: Seq<char>, c: char, i: int)
    requires
        0 <= i < s.len(),
        s[i] == c,
        forall|j: int| 0 <= j < i ==> s[j] != c,
    ensures
        first_index_of(s, c) == Some(i as nat),
    decreases i,
{
    if i > 0 {
        lemma_first_index(s.drop_first(), c, i - 1);
    }
}

proof fn lemma_first_index_none(s: Seq<char>, c: char)
    requires
        forall|j: int| 0 <= j < s.len() ==> s[j] != c,
    ensures
        first_index_of(s, c) is None,
    decreases s.len(),
{
    if s.len() > 0 {
        lemma_first_index_none(s.drop_first(), c);
    }
}

pub fn to_origin_form(uri: &str) -> (r: String)
    ensures
        r@ == origin_form(uri@),
{
    if starts_with(uri, "http://") {
        proof {
            reveal_strlit("http://");
        }
        assert("http://"@ =~= seq!['h', 't', 't', 'p', ':', '/', '/']);
        let n = uri.unicode_len();
        let rest = uri.substring_char(7, n);
        match index_of(rest, '/') {
            Some(i) => rest.substring_char(i, n - 7).to_owned(),
            None => {
                proof {
                    reveal_strlit("/");
                }
                "/".to_owned()
            },
        }
    } else {
        proof {
            reveal_strlit("http://");
        }
        assert("http://"@ =~= seq!['h', 't', 't', 'p', ':', '/', '/']);
        uri.to_owned()
    }
}

/// The request as it goes to `backend`: method, headers and body kept, the
/// `Host` header set to the backend's address, and the target made absolute
/// with the backend as its authority.
pub open spec fn forwarded_spec(req: RequestView, backend: Seq<char>) -> RequestView {
    RequestView {
        method: req.method,
        uri: seq!['h', 't', 't', 'p', ':', '/', '/'] + backend + origin_form(req.uri),
        headers: set_header_spec(req.headers, seq!['h', 'o', 's', 't'], backend),
        body: req.body,
    }
}

pub fn rewrite_for_backend(req: &HttpRequest, backend: &str) -> (r: HttpRequest)
    ensures
        r@ == forwarded_spec(req@, backend@),
{
    let mut headers = copy_headers(&req.headers);
    proof {
        reveal_strlit("host");
        reveal_strlit("http://");
    }
    assert("host"@ =~= seq!['h', 'o', 's', 't']);
    set_header(&mut headers, "host", backend);
    let mut uri = "http://".to_owned();
    uri.append(backend);
    let path = to_origin_form(req.uri.as_str());
    uri.append(path.as_str());
    assert("http://"@ =~= seq!['h', 't', 't', 'p', ':', '/', '/']);
    HttpRequest { method: copy_text(&req.method), uri, headers, body: copy_bytes(&req.body) }
}

} // verus!
