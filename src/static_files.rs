//! The static-file side: the response for a file that the caller has read,
//! and the listing of a directory. Reading files stays with the caller.

use vstd::prelude::*;
use vstd::string::StringExecFns;
use crate::compression::{content_encoding, content_length, content_type, gzip_of, gzip_token};
use crate::config::Config;
use crate::http::{HttpRequest, HttpResponse, RequestView, header_value, set_header};
use crate::text::{contains, contains_text, decimal_text, format_decimal};

verus! {

/// The HTTP date ("Sun, 06 Nov 1994 08:49:37 GMT") of a Unix time in
/// seconds, or `None` for a time that cannot be written.
pub uninterp spec fn http_date_text(secs: int) -> Option<Seq<char>>;

/// The Unix time that an HTTP date names, or `None` for text that is none.
pub uninterp spec fn http_date_value(s: Seq<char>) -> Option<int>;

/// The MIME type that a file's name suggests (octet-stream when none).
pub uninterp spec fn mime_type_of(path: Seq<char>) -> Seq<char>;

/// Relies on chrono: `DateTime::<Utc>::from_timestamp(secs, 0)` formatted
/// as "%a, %d %b %Y %H:%M:%S GMT".
#[verifier::external_body]
fn format_http_date(secs: i64) -> (r: Option<String>)
    ensures
        match r {
            Some(t) => http_date_text(secs as int) == Some(t@),
            None => http_date_text(secs as int) is None,
        },
{
    match chrono::DateTime::<chrono::Utc>::from_timestamp(secs, 0) {
        Some(d) => Some(d.format("%a, %d %b %Y %H:%M:%S GMT").to_string()),
        None => None,
    }
}

/// Relies on chrono: `NaiveDateTime::parse_from_str` with the format
/// "%a, %d %b %Y %H:%M:%S GMT", read as UTC.
#[verifier::external_body]
fn parse_http_date(s: &str) -> (r: Option<i64>)
    ensures
        match r {
            Some(v) => http_date_value(s@) == Some(v as int),
            None => http_date_value(s@) is None,
        },
{
    match chrono::NaiveDateTime::parse_from_str(s, "%a, %d %b %Y %H:%M:%S GMT") {
        Ok(d) => Some(d.and_utc().timestamp()),
        Err(_) => None,
    }
}

/// Relies on mime_guess: `from_path(path).first_or_octet_stream()`, written out.
#[verifier::external_body]
fn guess_mime(path: &str) -> (r: String)
    ensures
        r@ == mime_type_of(path@),
{
    mime_guess::from_path(path).first_or_octet_stream().to_string()
}

/// Whether the request's If-Modified-Since date is no earlier than `modified`.
pub open spec fn not_modified(req: RequestView, modified: i64) -> bool {
    header_value(req.headers, "if-modified-since"@) matches Some(t)
        && (http_date_value(t) matches Some(since) && modified as int <= since)
}

/// The link of one directory entry: its name, with `/` after a directory.
pub open spec fn entry_link(name: Seq<char>, is_dir: bool) -> Seq<char> {
    if is_dir { name + seq!['/'] } else { name }
}

/// The list items of the entries, hidden ones (a leading `.`) left out.
pub open spec fn listing_items(entries: Seq<(Seq<char>, bool)>) -> Seq<char>
    decreases entries.len(),
{
    if entries.len() == 0 {
        Seq::empty()
    } else {
        let (name, is_dir) = entries.last();
        let rest = listing_items(entries.drop_last());
        if name.len() > 0 && name[0] == '.' {
            rest
        } else {
            rest + "<li><a href=\""@ + entry_link(name, is_dir) + "\">"@ + entry_link(name, is_dir) + "</a></li>\n"@
        }
    }
}

/// The HTML listing of a directory at `path`, with a link to the parent
/// unless `path` is `/`.
pub open spec fn listing_page(path: Seq<char>, entries: Seq<(Seq<char>, bool)>) -> Seq<char> {
    "<!DOCTYPE html>\n<html>\n<head>\n<meta charset=\"utf-8\">\n<title>Directory listing for "@ + path
        + "</title>\n</head>\n<body>\n<h1>Directory listing for "@ + path + "</h1>\n<hr>\n<ul>\n"@
        + (if path != "/"@ { "<li><a href=\"../\">../</a></li>\n"@ } else { Seq::empty() })
        + listing_items(entries) + "</ul>\n<hr>\n</body>\n</html>"@
}

/// What a request for a directory gets.
#[derive(PartialEq, Eq, Structural, Clone, Copy, Debug)]
pub enum DirectoryAction {
    /// The directory's `index.html`.
    ServeIndex,
    /// A listing of the directory.
    List,
    /// 403: listings are off.
    Forbidden,
}

pub struct StaticServer {
    root_dir: String,
    enable_auto_index: bool,
    config: Config,
}

impl StaticServer {
    pub closed spec fn root(&self) -> Seq<char> {
        self.root_dir@
    }

    pub closed spec fn auto_index(&self) -> bool {
        self.enable_auto_index
    }

    pub closed spec fn settings(&self) -> Config {
        self.config
    }

    /// A server for the tree at `root_dir`, with directory listings on.
    pub fn new(root_dir: String, config: Config) -> (r: Self)
        ensures
            r.root() == root_dir@,
            r.auto_index(),
            r.settings() == config,
    {
        StaticServer { root_dir, enable_auto_index: true, config }
    }

    pub fn with_auto_index(root_dir: String, enable_auto_index: bool, config: Config) -> (r: Self)
        ensures
            r.root() == root_dir@,
            r.auto_index() == enable_auto_index,
            r.settings() == config,
    {
        StaticServer { root_dir, enable_auto_index, config }
    }

    pub fn root_dir(&self) -> (r: &String)
        ensures
            r@ == self.root(),
    {
        &self.root_dir
    }

    pub fn auto_index_enabled(&self) -> (r: bool)
        ensures
            r == self.auto_index(),
    {
        self.enable_auto_index
    }

    /// The listing of the directory at `request_path` whose entries are
    /// (name, is a directory) pairs.
    pub fn generate_directory_listing(&self, request_path: &str, entries: &Vec<(String, bool)>) -> (r: HttpResponse)
        ensures
            r@.status == 200,
            r@.body == vstd::utf8::encode_utf8(listing_page(request_path@, entries@.map_values(|e: (String, bool)| (e.0@, e.1)))),
            header_value(r@.headers, content_type()) == Some("text/html; charset=utf-8"@),
    {
        let ghost es = entries@.map_values(|e: (String, bool)| (e.0@, e.1));
        let mut page = "<!DOCTYPE html>\n<html>\n<head>\n<meta charset=\"utf-8\">\n<title>Directory listing for ".to_owned();
        page.append(request_path);
        page.append("</title>\n</head>\n<body>\n<h1>Directory listing for ");
        page.append(request_path);
        page.append("</h1>\n<hr>\n<ul>\n");
        if !crate::load_balancing::str_eq(request_path, "/") {
            page.append("<li><a href=\"../\">../</a></li>\n");
        }
        let ghost head = page@;
        let mut i: usize = 0;
        while i < entries.len()
            invariant
                es == entries@.map_values(|e: (String, bool)| (e.0@, e.1)),
                i <= entries@.len(),
                page@ == head + listing_items(es.take(i as int)),
            decreases entries@.len() - i,
        {
            assert(es.take(i as int + 1).drop_last() =~= es.take(i as int));
            let (name, is_dir) = (&entries[i].0, entries[i].1);
            let hidden = name.as_str().unicode_len() > 0 && name.as_str().get_char(0) == '.';
            if !hidden {
                let mut link = name.clone();
                if is_dir {
                    proof {
                        reveal_strlit("/");
                    }
                    link.append("/");
                }
                assert(link@ == entry_link(name@, is_dir));
                page.append("<li><a href=\"");
                page.append(link.as_str());
                page.append("\">");
                page.append(link.as_str());
                page.append("</a></li>\n");
            }
            i = i + 1;
            assert(page@ =~= head + listing_items(es.take(i as int)));
        }
        assert(es.take(entries@.len() as int) =~= es);
        page.append("</ul>\n<hr>\n</body>\n</html>");
        assert(page@ =~= listing_page(request_path@, es));
        let mut r = HttpResponse::new(200, vstd::slice::slice_to_vec(page.as_str().as_bytes()));
        set_header(&mut r.headers, "content-type", "text/html; charset=utf-8");
        proof {
            reveal_strlit("content-type");
            crate::compression::lemma_header_after_set(Seq::empty(), "content-type"@, "text/html; charset=utf-8"@);
        }
        assert("content-type"@ =~= content_type());
        r
    }

    /// A directory is answered by its `index.html` when it has one, else by
    /// a listing when listings are on, else refused.
    pub fn directory_action(&self, index_exists: bool) -> (r: DirectoryAction)
        ensures
            r == if index_exists {
                DirectoryAction::ServeIndex
            } else if self.auto_index() {
                DirectoryAction::List
            } else {
                DirectoryAction::Forbidden
            },
    {
        if index_exists {
            DirectoryAction::ServeIndex
        } else if self.enable_auto_index {
            DirectoryAction::List
        } else {
            DirectoryAction::Forbidden
        }
    }

    /// Whether a file of `len` bytes goes out gzipped: gzip is on, the file
    /// is longer than the minimum (1024 when unset), and the client accepts gzip.
    pub open spec fn gzips(&self, req: RequestView, len: nat) -> bool {
        &&& self.settings().features.gzip.gzip_compression == Some(true)
        &&& len > match self.settings().features.gzip.gzip_min_length {
            Some(m) => m as nat,
            None => 1024,
        }
        &&& header_value(req.headers, "accept-encoding"@) matches Some(a) && contains_text(a, gzip_token())
    }

    /// The gzip level for files: the configured one (6 when unset), at most 9.
    pub open spec fn file_level(&self) -> u32 {
        let l = match self.settings().features.gzip.gzip_comp_level {
            Some(l) => l,
            None => 6,
        };
        if l > 9 { 9 } else { l }
    }

    /// The response for the file at `path` whose bytes are `contents` and
    /// which was last modified at `modified` (Unix seconds), with that date
    /// as Last-Modified: 304 with an empty body when the client's copy is
    /// current; else 200 with the file's MIME type, gzipped exactly when
    /// `gzips` says so.
    pub fn file_response(&self, req: &HttpRequest, path: &str, contents: Vec<u8>, modified: i64) -> (r: HttpResponse)
        ensures
            header_value(r@.headers, "last-modified"@) == http_date_text(modified as int),
            not_modified(req@, modified) ==> r@.status == 304 && r@.body.len() == 0,
            !not_modified(req@, modified) ==> {
                &&& r@.status == 200
                &&& header_value(r@.headers, content_type()) == Some(mime_type_of(path@))
                &&& self.gzips(req@, contents@.len()) ==> r@.body == gzip_of(self.file_level(), contents@)
                    && header_value(r@.headers, content_encoding()) == Some(gzip_token())
                    && header_value(r@.headers, content_length()) == Some(decimal_text(r@.body.len()))
                &&& !self.gzips(req@, contents@.len()) ==> r@.body == contents@
                    && header_value(r@.headers, content_encoding()) is None
                    && header_value(r@.headers, content_length()) == Some(decimal_text(contents@.len()))
            },
    {
        proof {
            reveal_strlit("last-modified");
            reveal_strlit("content-encoding");
            reveal_strlit("content-type");
            reveal_strlit("content-length");
            reveal_strlit("gzip");
        }
        assert("content-encoding"@ =~= content_encoding());
        assert("content-type"@ =~= content_type());
        assert("content-length"@ =~= content_length());
        assert("gzip"@ =~= gzip_token());
        let ghost lm = "last-modified"@;
        let ghost ce = content_encoding();
        let ghost ct = content_type();
        let ghost cl = content_length();
        let date = format_http_date(modified);
        let mut r = HttpResponse::new(200, Vec::new());
        let ghost h0 = r@.headers;
        match &date {
            Some(d) => set_header(&mut r.headers, "last-modified", d.as_str()),
            None => {},
        }
        let ghost h1 = r@.headers;
        proof {
            if date is Some {
                crate::compression::lemma_header_after_set(h0, lm, h1.last().1);
                crate::compression::lemma_header_set_other(h0, lm, h1.last().1, ce);
                crate::compression::lemma_header_set_other(h0, lm, h1.last().1, ct);
                crate::compression::lemma_header_set_other(h0, lm, h1.last().1, cl);
            }
        }
        let since = match req.header("if-modified-since") {
            Some(t) => parse_http_date(t.as_str()),
            None => None,
        };
        let current = match since {
            Some(s) => modified <= s,
            None => false,
        };
        if current {
            r.status = 304;
            return r;
        }
        let gzip_on = self.config.is_gzip_enabled();
        let min: usize = match self.config.features.gzip.gzip_min_length {
            Some(m) => m as usize,
            None => 1024,
        };
        let accepts = match req.header("accept-encoding") {
            Some(a) => contains(a.as_str(), "gzip"),
            None => false,
        };
        let mime = guess_mime(path);
        let level = self.config.get_gzip_comp_level();
        let level = if level > 9 { 9 } else { level };
        let zipped = gzip_on && contents.len() > min && accepts;
        let body = if zipped {
            match crate::compression::gzip_encode(contents.as_slice(), level) {
                Some(z) => z,
                None => contents,
            }
        } else {
            contents
        };
        let len = format_decimal(body.len() as u128);
        set_header(&mut r.headers, "content-length", len.as_str());
        let ghost h2 = r@.headers;
        proof {
            crate::compression::lemma_header_after_set(h1, cl, len@);
            crate::compression::lemma_header_set_other(h1, cl, len@, lm);
            crate::compression::lemma_header_set_other(h1, cl, len@, ce);
        }
        if zipped {
            set_header(&mut r.headers, "content-encoding", "gzip");
        }
        let ghost h3 = r@.headers;
        proof {
            if zipped {
                crate::compression::lemma_header_after_set(h2, ce, gzip_token());
                crate::compression::lemma_header_set_other(h2, ce, gzip_token(), lm);
                crate::compression::lemma_header_set_other(h2, ce, gzip_token(), cl);
            }
        }
        set_header(&mut r.headers, "content-type", mime.as_str());
        proof {
            crate::compression::lemma_header_after_set(h3, ct, mime@);
            crate::compression::lemma_header_set_other(h3, ct, mime@, lm);
            crate::compression::lemma_header_set_other(h3, ct, mime@, cl);
            crate::compression::lemma_header_set_other(h3, ct, mime@, ce);
        }
        r.body = body;
        r
    }
}

} // verus!
