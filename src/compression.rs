//! Response compression: gzip a buffered body when the client accepts it,
//! the content type is on the list, the body is long enough, and the body is
//! not encoded already.

use vstd::prelude::*;
use std::io::Write;
use crate::http::{HttpResponse, ResponseView, HeaderSeq, header_value, set_header, set_header_spec, strip_header};
use crate::text::{contains, contains_text, has_prefix, starts_with, decimal_text, format_decimal, eq_ignore_ascii_case};

verus! {

/// The gzip stream that flate2 writes for `data` at compression `level`.
pub uninterp spec fn gzip_of(level: u32, data: Seq<u8>) -> Seq<u8>;

/// Relies on flate2's `GzEncoder` writing into a `Vec` (default header: no
/// name, time 0): the gzip stream of `data` at `level` (0 to 9). Writing to a
/// `Vec` cannot fail, and the compressor fails only on states that levels 0
/// to 9 never reach, so the result is always there.
#[verifier::external_body]
pub(crate) fn gzip_encode(data: &[u8], level: u32) -> (r: Option<Vec<u8>>)
    requires
        level <= 9,
    ensures
        r is Some,
        r matches Some(v) ==> v@ == gzip_of(level, data@),
{
    let mut encoder = flate2::write::GzEncoder::new(Vec::new(), flate2::Compression::new(level));
    match encoder.write_all(data) {
        Ok(()) => encoder.finish().ok(),
        Err(_) => None,
    }
}

pub open spec fn content_encoding() -> Seq<char> {
    seq!['c', 'o', 'n', 't', 'e', 'n', 't', '-', 'e', 'n', 'c', 'o', 'd', 'i', 'n', 'g']
}

pub open spec fn content_type() -> Seq<char> {
    seq!['c', 'o', 'n', 't', 'e', 'n', 't', '-', 't', 'y', 'p', 'e']
}

pub open spec fn content_length() -> Seq<char> {
    seq!['c', 'o', 'n', 't', 'e', 'n', 't', '-', 'l', 'e', 'n', 'g', 't', 'h']
}

pub open spec fn vary() -> Seq<char> {
    seq!['v', 'a', 'r', 'y']
}

pub open spec fn gzip_token() -> Seq<char> {
    seq!['g', 'z', 'i', 'p']
}

pub open spec fn accept_encoding_token() -> Seq<char> {
    seq!['A', 'c', 'c', 'e', 'p', 't', '-', 'E', 'n', 'c', 'o', 'd', 'i', 'n', 'g']
}

/// The settings of the compressor, as plain values.
pub struct CompressionSettings {
    pub level: u32,
    pub min_length: nat,
    pub types: Seq<Seq<char>>,
}

/// Whether `ct` begins with one of `types`.
pub open spec fn type_listed(types: Seq<Seq<char>>, ct: Seq<char>) -> bool {
    exists|i: int| 0 <= i < types.len() && has_prefix(ct, #[trigger] types[i])
}

/// When a response is compressed: the client accepts gzip, the body is not
/// encoded yet, its content type is listed, and it is longer than the minimum.
pub open spec fn should_compress(m: CompressionSettings, resp: ResponseView, accept: Seq<char>) -> bool {
    &&& contains_text(accept, gzip_token())
    &&& header_value(resp.headers, content_encoding()) is None
    &&& match header_value(resp.headers, content_type()) {
        Some(ct) => type_listed(m.types, ct),
        None => false,
    }
    &&& resp.body.len() > m.min_length
}

/// The response with `compressed` as its body: Content-Length follows the new
/// body, `Vary: Accept-Encoding` and `Content-Encoding: gzip` are set, and the
/// other headers stay.
pub open spec fn gzipped_response(resp: ResponseView, compressed: Seq<u8>) -> ResponseView {
    ResponseView {
        status: resp.status,
        headers: set_header_spec(
            set_header_spec(
                set_header_spec(resp.headers, content_length(), decimal_text(compressed.len())),
                vary(),
                accept_encoding_token(),
            ),
            content_encoding(),
            gzip_token(),
        ),
        body: compressed,
    }
}

/// The error side of `compress_response`. Compressing a buffered body
/// does not fail, so the contract of `compress_response` rules it out.
#[derive(PartialEq, Eq, Structural, Clone, Copy, Debug)]
pub enum CompressionError {
    /// The encoder reported a failure.
    EncodeFailed,
}

/// The content types that the compressor lists by default.
pub open spec fn default_types() -> Seq<Seq<char>> {
    seq!["text/html"@, "text/css"@, "text/plain"@, "text/xml"@, "text/javascript"@, "application/javascript"@,
        "application/json"@, "application/xml"@]
}

/// Gzips response bodies by the settings it holds.
pub struct CompressionModule {
    level: u32,
    min_length: usize,
    types: Vec<String>,
}

impl CompressionModule {
    pub closed spec fn settings(&self) -> CompressionSettings {
        CompressionSettings {
            level: self.level,
            min_length: self.min_length as nat,
            types: self.types@.map_values(|t: String| t@),
        }
    }

    pub closed spec fn wf(&self) -> bool {
        self.level <= 9
    }

    /// Level 6, bodies over 200 bytes, and the usual text types: HTML, CSS,
    /// plain text, XML, JavaScript and JSON.
    pub fn new() -> (r: Self)
        ensures
            r.wf(),
            r.settings().level == 6,
            r.settings().min_length == 200,
            r.settings().types == default_types(),
    {
        let mut types: Vec<String> = Vec::new();
        types.push("text/html".to_owned());
        types.push("text/css".to_owned());
        types.push("text/plain".to_owned());
        types.push("text/xml".to_owned());
        types.push("text/javascript".to_owned());
        types.push("application/javascript".to_owned());
        types.push("application/json".to_owned());
        types.push("application/xml".to_owned());
        let r = CompressionModule { level: 6, min_length: 200, types };
        assert(r.settings().types =~= default_types());
        r
    }

    /// Settings of one's own; a level over 9 counts as 9.
    pub fn with_settings(level: u32, min_length: usize, types: Vec<String>) -> (r: Self)
        ensures
            r.wf(),
            r.settings().level == if level > 9 { 9 } else { level },
            r.settings().min_length == min_length,
            r.settings().types == types@.map_values(|t: String| t@),
    {
        CompressionModule { level: if level > 9 { 9 } else { level }, min_length, types }
    }

    /// A copy of the content types on the list.
    pub fn types_owned(&self) -> (r: Vec<String>)
        ensures
            r@.map_values(|t: String| t@) == self.settings().types,
    {
        crate::text::clone_texts(&self.types)
    }

    fn listed(&self, ct: &str) -> (r: bool)
        ensures
            r == type_listed(self.settings().types, ct@),
    {
        let mut i: usize = 0;
        while i < self.types.len()
            invariant
                i <= self.types@.len(),
                forall|j: int| 0 <= j < i ==> !has_prefix(ct@, #[trigger] self.settings().types[j]),
            decreases self.types@.len() - i,
        {
            if starts_with(ct, self.types[i].as_str()) {
                assert(has_prefix(ct@, self.settings().types[i as int]));
                return true;
            }
            i = i + 1;
        }
        false
    }

    /// Whether `response` is to be compressed for a client that sent `accept_encoding`.
    pub fn should_compress(&self, response: &HttpResponse, accept_encoding: &str) -> (r: bool)
        ensures
            r == should_compress(self.settings(), response@, accept_encoding@),
    {
        proof {
            reveal_strlit("gzip");
            reveal_strlit("content-encoding");
            reveal_strlit("content-type");
        }
        assert("gzip"@ =~= gzip_token());
        assert("content-encoding"@ =~= content_encoding());
        assert("content-type"@ =~= content_type());
        if !contains(accept_encoding, "gzip") {
            return false;
        }
        if response.header("content-encoding").is_some() {
            return false;
        }
        let listed = match response.header("content-type") {
            Some(ct) => self.listed(ct.as_str()),
            None => false,
        };
        listed && response.body.len() > self.min_length
    }

    /// Puts `compressed` in place of the body and sets the headers that go with it.
    pub fn apply_gzip(response: HttpResponse, compressed: Vec<u8>) -> (r: HttpResponse)
        ensures
            r@ == gzipped_response(response@, compressed@),
    {
        proof {
            reveal_strlit("content-length");
            reveal_strlit("vary");
            reveal_strlit("Accept-Encoding");
            reveal_strlit("content-encoding");
            reveal_strlit("gzip");
        }
        assert("content-length"@ =~= content_length());
        assert("vary"@ =~= vary());
        assert("Accept-Encoding"@ =~= accept_encoding_token());
        assert("content-encoding"@ =~= content_encoding());
        assert("gzip"@ =~= gzip_token());
        let mut headers = response.headers;
        let len = format_decimal(compressed.len() as u128);
        set_header(&mut headers, "content-length", len.as_str());
        set_header(&mut headers, "vary", "Accept-Encoding");
        set_header(&mut headers, "content-encoding", "gzip");
        HttpResponse { status: response.status, headers, body: compressed }
    }

    /// Compresses `response` when `should_compress` says so and returns it
    /// unchanged otherwise; it always succeeds.
    pub fn compress_response(&self, response: HttpResponse, accept_encoding: &str) -> (r: Result<HttpResponse, CompressionError>)
        requires
            self.wf(),
        ensures
            !should_compress(self.settings(), response@, accept_encoding@) ==> (r matches Ok(out) && out@ == response@),
            should_compress(self.settings(), response@, accept_encoding@) ==> (r matches Ok(out)
                && out@ == gzipped_response(response@, gzip_of(self.settings().level, response@.body))),
    {
        if !self.should_compress(&response, accept_encoding) {
            return Ok(response);
        }
        match gzip_encode(response.body.as_slice(), self.level) {
            Some(compressed) => Ok(Self::apply_gzip(response, compressed)),
            None => Err(CompressionError::EncodeFailed),
        }
    }
}

pub proof fn lemma_header_push(hs: HeaderSeq, x: (Seq<char>, Seq<char>), name: Seq<char>)
    ensures
        header_value(hs.push(x), name) == match header_value(hs, name) {
            Some(v) => Some(v),
            None => if eq_ignore_ascii_case(x.0, name) { Some(x.1) } else { None },
        },
    decreases hs.len(),
{
    if hs.len() > 0 {
        assert(hs.push(x).drop_first() =~= hs.drop_first().push(x));
        lemma_header_push(hs.drop_first(), x, name);
    } else {
        assert(hs.push(x).drop_first() =~= hs);
    }
}

pub proof fn lemma_strip_removes(hs: HeaderSeq, name: Seq<char>)
    ensures
        header_value(strip_header(hs, name), name) is None,
    decreases hs.len(),
{
    if hs.len() > 0 {
        lemma_strip_removes(hs.drop_last(), name);
        if !eq_ignore_ascii_case(hs.last().0, name) {
            lemma_header_push(strip_header(hs.drop_last(), name), hs.last(), name);
        }
    }
}

/// Names equal without ASCII case to a third are equal without case to each other.
pub proof fn lemma_eq_ignore_case_trans(a: Seq<char>, b: Seq<char>, c: Seq<char>)
    requires
        eq_ignore_ascii_case(a, b),
        eq_ignore_ascii_case(a, c),
    ensures
        eq_ignore_ascii_case(b, c),
{
    assert forall|j: int| 0 <= j < b.len() implies crate::text::ascii_lower(#[trigger] b[j]) == crate::text::ascii_lower(c[j]) by {
        assert(crate::text::ascii_lower(a[j]) == crate::text::ascii_lower(b[j]));
        assert(crate::text::ascii_lower(a[j]) == crate::text::ascii_lower(c[j]));
    }
}

/// Dropping the `name` headers leaves the lookup of any other name as it was.
pub proof fn lemma_strip_keeps_other(hs: HeaderSeq, name: Seq<char>, other: Seq<char>)
    requires
        !eq_ignore_ascii_case(name, other),
    ensures
        header_value(strip_header(hs, name), other) == header_value(hs, other),
    decreases hs.len(),
{
    if hs.len() > 0 {
        let init = hs.drop_last();
        let last = hs.last();
        lemma_strip_keeps_other(init, name, other);
        assert(init.push(last) =~= hs);
        lemma_header_push(init, last, other);
        if eq_ignore_ascii_case(last.0, name) {
            if eq_ignore_ascii_case(last.0, other) {
                lemma_eq_ignore_case_trans(last.0, name, other);
            }
        } else {
            lemma_header_push(strip_header(init, name), last, other);
        }
    }
}

/// Setting `name` leaves the lookup of any other name as it was.
pub proof fn lemma_header_set_other(hs: HeaderSeq, name: Seq<char>, v: Seq<char>, other: Seq<char>)
    requires
        !eq_ignore_ascii_case(name, other),
    ensures
        header_value(set_header_spec(hs, name, v), other) == header_value(hs, other),
{
    lemma_strip_keeps_other(hs, name, other);
    lemma_header_push(strip_header(hs, name), (name, v), other);
}

/// After `name` is set to `v`, looking `name` up gives `v`.
pub proof fn lemma_header_after_set(hs: HeaderSeq, name: Seq<char>, v: Seq<char>)
    ensures
        header_value(set_header_spec(hs, name, v), name) == Some(v),
{
    lemma_strip_removes(hs, name);
    lemma_header_push(strip_header(hs, name), (name, v), name);
}

/// Compression idempotence: a response that already carries a
/// Content-Encoding is left as it is, and a compressed response carries
/// `Content-Encoding: gzip`, so compressing it again changes nothing.
pub proof fn lemma_compression_idempotent(m: CompressionSettings, resp: ResponseView, compressed: Seq<u8>, accept: Seq<char>)
    ensures
        header_value(resp.headers, content_encoding()) is Some ==> !should_compress(m, resp, accept),
        header_value(gzipped_response(resp, compressed).headers, content_encoding()) == Some(gzip_token()),
        !should_compress(m, gzipped_response(resp, compressed), accept),
{
    let h2 = set_header_spec(
        set_header_spec(resp.headers, content_length(), decimal_text(compressed.len())),
        vary(),
        accept_encoding_token(),
    );
    lemma_header_after_set(h2, content_encoding(), gzip_token());
}

} // verus!
