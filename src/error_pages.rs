//! Error pages by status code: built-in pages for the common errors, pages
//! of one's own, and the response for a status.

use vstd::prelude::*;
use vstd::string::StringExecFns;
use vstd::utf8::encode_utf8;
use crate::http::{HttpResponse, header_value, set_header};
use crate::text::{decimal_text, format_decimal};

verus! {

/// The reason phrase that the HTTP crate knows for a status code.
pub uninterp spec fn canonical_reason_of(code: u16) -> Option<Seq<char>>;

/// Relies on `hyper::StatusCode::from_u16` and `canonical_reason`.
#[verifier::external_body]
fn canonical_reason(code: u16) -> (r: Option<String>)
    ensures
        match r {
            Some(t) => canonical_reason_of(code) == Some(t@),
            None => canonical_reason_of(code) is None,
        },
{
    match hyper::StatusCode::from_u16(code) {
        Ok(status) => status.canonical_reason().map(str::to_string),
        Err(_) => None,
    }
}

pub const PAGE_HEAD: &'static str = "<!DOCTYPE html>\n<html>\n<head>\n    <meta charset=\"utf-8\">\n    <title>";
pub const PAGE_STYLE: &'static str = "</title>\n    <style>\n        body { font-family: Arial, sans-serif; margin: 40px; background-color: #f4f4f4; }\n        .container { max-width: 600px; margin: 0 auto; background-color: white; padding: 30px; border-radius: 5px; box-shadow: 0 0 10px rgba(0,0,0,0.1); text-align: center; }\n        h1 { color: #d9534f; font-size: 36px; margin-bottom: 20px; }\n        .error-code { font-size: 72px; font-weight: bold; color: #d9534f; margin: 20px 0; }\n        .error-message { font-size: 18px; color: #666; margin-bottom: 30px; }\n    </style>\n</head>\n<body>\n    <div class=\"container\">\n        <div class=\"error-code\">";
pub const PAGE_TAIL: &'static str = "</div>\n    </div>\n</body>\n</html>";

/// The built-in page for a status: its code and title in the head and the
/// big line, the title as heading, and the message.
pub open spec fn default_page(code: u16, title: Seq<char>, message: Seq<char>) -> Seq<char> {
    PAGE_HEAD@ + decimal_text(code as nat) + " - "@ + title + PAGE_STYLE@ + decimal_text(code as nat) + " "@ + title
        + "</div>\n        <h1>"@ + title + "</h1>\n        <div class=\"error-message\">"@ + message + PAGE_TAIL@
}

/// The page stored for `code` (the last entry for it).
pub open spec fn page_in(pages: Seq<(u16, Seq<char>)>, code: u16) -> Option<Seq<char>>
    decreases pages.len(),
{
    if pages.len() == 0 {
        None
    } else if pages.last().0 == code {
        Some(pages.last().1)
    } else {
        page_in(pages.drop_last(), code)
    }
}

pub struct ErrorPages {
    pages: Vec<(u16, String)>,
}

impl ErrorPages {
    pub closed spec fn table(&self) -> Seq<(u16, Seq<char>)> {
        self.pages@.map_values(|p: (u16, String)| (p.0, p.1@))
    }

    /// The page for `code` that a response uses.
    pub open spec fn page(&self, code: u16) -> Option<Seq<char>> {
        page_in(self.table(), code)
    }

    pub fn create_default_error_page(status_code: u16, title: &str, message: &str) -> (r: String)
        ensures
            r@ == default_page(status_code, title@, message@),
    {
        let code = format_decimal(status_code as u128);
        let mut p = PAGE_HEAD.to_owned();
        p.append(code.as_str());
        p.append(" - ");
        p.append(title);
        p.append(PAGE_STYLE);
        p.append(code.as_str());
        p.append(" ");
        p.append(title);
        p.append("</div>\n        <h1>");
        p.append(title);
        p.append("</h1>\n        <div class=\"error-message\">");
        p.append(message);
        p.append(PAGE_TAIL);
        p
    }

    /// Built-in pages for 404, 500, 403, 400 and 401.
    pub fn new() -> (r: Self)
        ensures
            r.page(404) == Some(default_page(404, "Not Found"@, "The requested resource was not found on this server."@)),
            r.page(403) == Some(default_page(403, "Forbidden"@, "You don't have permission to access this resource."@)),
            r.page(500) == Some(default_page(500, "Internal Server Error"@,
                "The server encountered an internal error and was unable to complete your request."@)),
            r.page(400) == Some(default_page(400, "Bad Request"@,
                "Your browser sent a request that this server could not understand."@)),
            r.page(401) == Some(default_page(401, "Unauthorized"@,
                "This server could not verify that you are authorized to access the document requested."@)),
            r.page(999) is None,
    {
        let mut e = ErrorPages { pages: Vec::new() };
        assert(e.table() =~= Seq::<(u16, Seq<char>)>::empty());
        e.add_page(404, Self::create_default_error_page(404, "Not Found", "The requested resource was not found on this server."));
        e.add_page(500, Self::create_default_error_page(500, "Internal Server Error",
            "The server encountered an internal error and was unable to complete your request."));
        e.add_page(403, Self::create_default_error_page(403, "Forbidden", "You don't have permission to access this resource."));
        e.add_page(400, Self::create_default_error_page(400, "Bad Request",
            "Your browser sent a request that this server could not understand."));
        e.add_page(401, Self::create_default_error_page(401, "Unauthorized",
            "This server could not verify that you are authorized to access the document requested."));
        proof {
            let t = e.table();
            assert(t.drop_last().drop_last().drop_last().drop_last().drop_last().len() == 0);
            reveal_with_fuel(page_in, 6);
        }
        e
    }

    /// Sets the page for a status; it replaces any earlier one.
    pub fn add_page(&mut self, status_code: u16, content: String)
        ensures
            final(self).table() == old(self).table().push((status_code, content@)),
    {
        let ghost entry = (status_code, content@);
        self.pages.push((status_code, content));
        assert(self.table() =~= old(self).table().push(entry));
    }

    pub fn get_page(&self, status_code: u16) -> (r: Option<String>)
        ensures
            match r {
                Some(p) => self.page(status_code) == Some(p@),
                None => self.page(status_code) is None,
            },
    {
        let ghost t = self.table();
        let mut i: usize = self.pages.len();
        assert(t.take(i as int) =~= t);
        while i > 0
            invariant
                t == self.table(),
                i <= t.len(),
                page_in(t, status_code) == page_in(t.take(i as int), status_code),
            decreases i,
        {
            assert(t.take(i as int).drop_last() =~= t.take(i as int - 1));
            if self.pages[i - 1].0 == status_code {
                return Some(self.pages[i - 1].1.clone());
            }
            i = i - 1;
        }
        None
    }

    /// The response for a status: its page, or a built-in page titled by the
    /// status's reason phrase ("Unknown Error" where there is none).
    pub fn create_error_response(&self, status_code: u16) -> (r: HttpResponse)
        ensures
            r@.status == status_code,
            r@.body == encode_utf8(match self.page(status_code) {
                Some(p) => p,
                None => default_page(status_code, canonical_reason_of(status_code).unwrap_or("Unknown Error"@),
                    "An error occurred while processing your request."@),
            }),
            header_value(r@.headers, "content-type"@) == Some("text/html; charset=utf-8"@),
    {
        let content = match self.get_page(status_code) {
            Some(p) => p,
            None => {
                let title = match canonical_reason(status_code) {
                    Some(t) => t,
                    None => "Unknown Error".to_owned(),
                };
                Self::create_default_error_page(status_code, title.as_str(), "An error occurred while processing your request.")
            },
        };
        let mut r = HttpResponse::new(status_code, vstd::slice::slice_to_vec(content.as_str().as_bytes()));
        set_header(&mut r.headers, "content-type", "text/html; charset=utf-8");
        proof {
            crate::compression::lemma_header_after_set(Seq::empty(), "content-type"@, "text/html; charset=utf-8"@);
        }
        r
    }
}

} // verus!
