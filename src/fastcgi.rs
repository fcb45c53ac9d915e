//! FastCGI backends: the client for one backend, and a round-robin balancer
//! over several.

use vstd::prelude::*;
use vstd::string::StringExecFns;
use vstd::utf8::encode_utf8;
use crate::http::{HttpRequest, HttpResponse, header_value, set_header};
use crate::text::{decimal_text, format_decimal};

verus! {

pub struct FastCgiClient {
    pub backend_addr: String,
}

/// The page that the FastCGI stub answers with for a request target and a body length.
pub open spec fn fastcgi_page(uri: Seq<char>, body_len: nat) -> Seq<char> {
    "<html><body><h1>FastCGI Response</h1><p>Request processed for URI: "@ + uri + "</p><p>Body size: "@
        + decimal_text(body_len) + " bytes</p></body></html>"@
}

impl FastCgiClient {
    pub fn new(backend_addr: String) -> (r: Self)
        ensures
            r.backend_addr == backend_addr,
    {
        FastCgiClient { backend_addr }
    }

    /// The answer to a request once the backend is reached: 200, HTML,
    /// naming the target and the body's length.
    pub fn handle_request(&self, req: &HttpRequest) -> (r: HttpResponse)
        ensures
            r@.status == 200,
            r@.body == encode_utf8(fastcgi_page(req@.uri, req@.body.len())),
            header_value(r@.headers, "content-type"@) == Some("text/html"@),
    {
        let mut page = "<html><body><h1>FastCGI Response</h1><p>Request processed for URI: ".to_owned();
        page.append(req.uri.as_str());
        page.append("</p><p>Body size: ");
        page.append(format_decimal(req.body.len() as u128).as_str());
        page.append(" bytes</p></body></html>");
        let mut r = HttpResponse::new(200, vstd::slice::slice_to_vec(page.as_str().as_bytes()));
        set_header(&mut r.headers, "content-type", "text/html");
        proof {
            crate::compression::lemma_header_after_set(Seq::empty(), "content-type"@, "text/html"@);
        }
        r
    }
}

/// Round-robin over FastCGI backends, with the next position kept in range.
pub struct FastCgiLoadBalancer {
    backends: Vec<String>,
    current: usize,
}

impl FastCgiLoadBalancer {
    pub closed spec fn pool(&self) -> Seq<String> {
        self.backends@
    }

    pub closed spec fn position(&self) -> nat {
        self.current as nat
    }

    pub closed spec fn wf(&self) -> bool {
        self.backends@.len() == 0 || self.current < self.backends@.len()
    }

    pub fn new(backends: Vec<String>) -> (r: Self)
        ensures
            r.wf(),
            r.pool() == backends@,
            r.position() == 0,
    {
        FastCgiLoadBalancer { backends, current: 0 }
    }

    /// The backend at the current position, then one position on (wrapping);
    /// `None` for an empty pool.
    pub fn get_next_backend(&mut self) -> (r: Option<String>)
        requires
            old(self).wf(),
        ensures
            final(self).wf(),
            final(self).pool() == old(self).pool(),
            old(self).pool().len() == 0 ==> r is None && final(self).position() == old(self).position(),
            old(self).pool().len() > 0 ==> r == Some(old(self).pool()[old(self).position() as int])
                && final(self).position() == (old(self).position() + 1) % old(self).pool().len(),
    {
        if self.backends.len() == 0 {
            return None;
        }
        let backend = self.backends[self.current].clone();
        self.current = (self.current + 1) % self.backends.len();
        Some(backend)
    }
}

} // verus!
