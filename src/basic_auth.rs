//! HTTP basic authentication against a table of users.

use vstd::prelude::*;
use vstd::utf8::encode_utf8;
use vstd::slice::slice_to_vec;
use crate::http::{HttpResponse, header_value, set_header};
use crate::text::{has_prefix, starts_with};

verus! {

/// The bytes that standard base64 text decodes to, or `None` where it is not base64.
pub uninterp spec fn base64_decoded(s: Seq<char>) -> Option<Seq<u8>>;

/// Relies on base64's standard engine (`Engine::decode` with `STANDARD`).
#[verifier::external_body]
fn decode_base64(s: &str) -> (r: Option<Vec<u8>>)
    ensures
        match r {
            Some(v) => base64_decoded(s@) == Some(v@),
            None => base64_decoded(s@) is None,
        },
{
    base64::Engine::decode(&base64::engine::general_purpose::STANDARD, s).ok()
}

/// The byte of `:`.
pub open spec fn colon() -> u8 {
    58
}

/// `user:password` split at its one colon; `None` when there is not exactly one.
pub open spec fn split_credentials(b: Seq<u8>) -> Option<(Seq<u8>, Seq<u8>)> {
    if exists|i: int| 0 <= i < b.len() && b[i] == colon() && forall|j: int| 0 <= j < b.len() && b[j] == colon() ==> j == i {
        let i = choose|i: int| 0 <= i < b.len() && b[i] == colon() && forall|j: int| 0 <= j < b.len() && b[j] == colon() ==> j == i;
        Some((b.take(i), b.skip(i + 1)))
    } else {
        None
    }
}

/// The password of `name` (given as UTF-8 bytes): the last entry for it.
pub open spec fn password_of(users: Seq<(Seq<char>, Seq<char>)>, name: Seq<u8>) -> Option<Seq<char>>
    decreases users.len(),
{
    if users.len() == 0 {
        None
    } else if encode_utf8(users.last().0) == name {
        Some(users.last().1)
    } else {
        password_of(users.drop_last(), name)
    }
}

/// Whether an `Authorization` header value names a known user with the right
/// password: `Basic ` then base64 of `user:password`.
pub open spec fn credentials_ok(users: Seq<(Seq<char>, Seq<char>)>, header: Seq<char>) -> bool {
    has_prefix(header, "Basic "@) && match base64_decoded(header.skip(6)) {
        Some(bytes) => decoded_ok(users, bytes),
        None => false,
    }
}

/// Whether decoded credentials `user:password` name a known user with the
/// right password.
pub open spec fn decoded_ok(users: Seq<(Seq<char>, Seq<char>)>, bytes: Seq<u8>) -> bool {
    match split_credentials(bytes) {
        Some((name, pw)) => match password_of(users, name) {
            Some(stored) => encode_utf8(stored) == pw,
            None => false,
        },
        None => false,
    }
}

fn bytes_eq(a: &[u8], b: &[u8]) -> (r: bool)
    ensures
        r == (a@ == b@),
{
    if a.len() != b.len() {
        return false;
    }
    let mut i: usize = 0;
    while i < a.len()
        invariant
            a@.len() == b@.len(),
            i <= a@.len(),
            forall|j: int| 0 <= j < i ==> a@[j] == b@[j],
        decreases a@.len() - i,
    {
        if a[i] != b[i] {
            return false;
        }
        i = i + 1;
    }
    assert(a@ =~= b@);
    true
}

fn split_at_colon(b: &Vec<u8>) -> (r: Option<(Vec<u8>, Vec<u8>)>)
    ensures
        match r {
            Some((n, p)) => split_credentials(b@) == Some((n@, p@)),
            None => split_credentials(b@) is None,
        },
{
    let mut count: usize = 0;
    let mut at: usize = 0;
    let mut i: usize = 0;
    while i < b.len()
        invariant
            i <= b@.len(),
            count <= i,
            count == 0 ==> forall|j: int| 0 <= j < i ==> b@[j] != colon(),
            count >= 1 ==> at < i && b@[at as int] == colon(),
            count == 1 ==> forall|j: int| 0 <= j < i && b@[j] == colon() ==> j == at,
            count >= 2 ==> exists|j: int| 0 <= j < i && b@[j] == colon() && j != at,
        decreases b@.len() - i,
    {
        if b[i] == 58 {
            if count == 0 {
                at = i;
            }
            count = count + 1;
        }
        i = i + 1;
    }
    if count != 1 {
        return None;
    }
    let ghost k = choose|k: int| 0 <= k < b@.len() && b@[k] == colon() && forall|j: int| 0 <= j < b@.len() && b@[j] == colon() ==> j == k;
    assert(k == at);
    let mut name: Vec<u8> = Vec::new();
    let mut pw: Vec<u8> = Vec::new();
    let mut j: usize = 0;
    while j < b.len()
        invariant
            at < b@.len(),
            j <= b@.len(),
            j <= at ==> name@ == b@.take(j as int) && pw@.len() == 0,
            j > at ==> name@ == b@.take(at as int) && pw@ == b@.subrange(at as int + 1, j as int),
        decreases b@.len() - j,
    {
        if j < at {
            name.push(b[j]);
            assert(name@ =~= b@.take(j as int + 1));
        } else if j > at {
            pw.push(b[j]);
            assert(pw@ =~= b@.subrange(at as int + 1, j as int + 1));
        } else {
            assert(pw@ =~= b@.subrange(at as int + 1, j as int + 1));
        }
        j = j + 1;
    }
    assert(pw@ =~= b@.skip(at as int + 1));
    Some((name, pw))
}

/// Users and their passwords.
pub struct BasicAuth {
    users: Vec<(String, String)>,
}

impl BasicAuth {
    pub closed spec fn table(&self) -> Seq<(Seq<char>, Seq<char>)> {
        self.users@.map_values(|u: (String, String)| (u.0@, u.1@))
    }

    pub fn new() -> (r: Self)
        ensures
            r.table().len() == 0,
    {
        BasicAuth { users: Vec::new() }
    }

    /// Adds a user; a later entry for the same name takes precedence.
    pub fn add_user(&mut self, username: String, password: String)
        ensures
            final(self).table() == old(self).table().push((username@, password@)),
    {
        let ghost u = (username@, password@);
        self.users.push((username, password));
        assert(self.table() =~= old(self).table().push(u));
    }

    fn lookup(&self, name: &[u8]) -> (r: Option<String>)
        ensures
            match r {
                Some(p) => password_of(self.table(), name@) == Some(p@),
                None => password_of(self.table(), name@) is None,
            },
    {
        let ghost t = self.table();
        let mut i: usize = self.users.len();
        assert(t.take(i as int) =~= t);
        while i > 0
            invariant
                t == self.table(),
                i <= t.len(),
                password_of(t, name@) == password_of(t.take(i as int), name@),
            decreases i,
        {
            assert(t.take(i as int).drop_last() =~= t.take(i as int - 1));
            let entry = &self.users[i - 1];
            let bytes = entry.0.as_str().as_bytes();
            if bytes_eq(bytes, name) {
                return Some(entry.1.clone());
            }
            i = i - 1;
        }
        None
    }

    /// Whether the `Authorization` header value (if any) names a known user
    /// with the right password.
    pub fn authenticate(&self, authorization: Option<&str>) -> (r: bool)
        ensures
            r == match authorization {
                Some(h) => credentials_ok(self.table(), h@),
                None => false,
            },
    {
        let header = match authorization {
            Some(h) => h,
            None => {
                return false;
            },
        };
        proof {
            reveal_strlit("Basic ");
        }
        if !starts_with(header, "Basic ") {
            return false;
        }
        let encoded = header.substring_char(6, header.unicode_len());
        assert(encoded@ == header@.skip(6));
        let decoded = match decode_base64(encoded) {
            Some(d) => d,
            None => {
                return false;
            },
        };
        self.check_credentials(&decoded)
    }

    /// Whether decoded credentials (`user:password`) name a known user with
    /// the right password.
    pub fn check_credentials(&self, decoded: &Vec<u8>) -> (r: bool)
        ensures
            r == decoded_ok(self.table(), decoded@),
    {
        let (name, pw) = match split_at_colon(decoded) {
            Some(p) => p,
            None => {
                return false;
            },
        };
        match self.lookup(name.as_slice()) {
            Some(stored) => bytes_eq(stored.as_str().as_bytes(), pw.as_slice()),
            None => false,
        }
    }

    /// The 401 answer that asks for credentials.
    pub fn create_challenge_response(&self) -> (r: HttpResponse)
        ensures
            r@.status == 401,
            r@.body == encode_utf8("Unauthorized"@),
            header_value(r@.headers, "www-authenticate"@) == Some("Basic realm=\"Restricted Area\""@),
    {
        let mut r = HttpResponse::new(401, slice_to_vec("Unauthorized".as_bytes()));
        set_header(&mut r.headers, "content-type", "text/plain");
        set_header(&mut r.headers, "www-authenticate", "Basic realm=\"Restricted Area\"");
        proof {
            crate::compression::lemma_header_after_set(
                crate::http::set_header_spec(Seq::empty(), "content-type"@, "text/plain"@),
                "www-authenticate"@, "Basic realm=\"Restricted Area\""@);
        }
        r
    }
}

} // verus!
