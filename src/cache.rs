//! A response cache: entries by key, each with an expiry time and a
//! fingerprint (ETag) of its body. Time is handed in by the caller, in
//! milliseconds.

use vstd::prelude::*;
use crate::http::{HttpResponse, ResponseView, copy_text};

verus! {

/// The lower-case hex MD5 digest of some bytes.
pub uninterp spec fn md5_hex(data: Seq<u8>) -> Seq<char>;

/// Relies on `md5::compute` and the digest's lower-hex formatting (two hex
/// digits per byte of the 16-byte digest).
#[verifier::external_body]
fn md5_hex_digest(data: &[u8]) -> (r: String)
    ensures
        r@ == md5_hex(data@),
        r@.len() == 32,
{
    format!("{:x}", md5::compute(data))
}

/// The ETag that the cache gives a body: its MD5 digest in lower-case hex.
pub fn body_etag(body: &Vec<u8>) -> (r: String)
    ensures
        r@ == md5_hex(body@),
        r@.len() == 32,
{
    md5_hex_digest(body.as_slice())
}

pub struct CacheEntry {
    pub response: HttpResponse,
    pub expires_at: u64,
    pub etag: Option<String>,
}

pub struct CacheEntryView {
    pub response: ResponseView,
    pub expires_at: u64,
    pub etag: Option<Seq<char>>,
}

impl View for CacheEntry {
    type V = CacheEntryView;

    open spec fn view(&self) -> CacheEntryView {
        CacheEntryView {
            response: self.response@,
            expires_at: self.expires_at,
            etag: match self.etag {
                Some(t) => Some(t@),
                None => None,
            },
        }
    }
}

pub type CacheTable = Seq<(Seq<char>, CacheEntryView)>;

/// The entry under `key` (the first one).
pub open spec fn lookup(t: CacheTable, key: Seq<char>) -> Option<CacheEntryView>
    decreases t.len(),
{
    if t.len() == 0 {
        None
    } else if t[0].0 == key {
        Some(t[0].1)
    } else {
        lookup(t.drop_first(), key)
    }
}

pub open spec fn keys_unique(t: CacheTable) -> bool {
    forall|i: int, j: int| 0 <= i < t.len() && 0 <= j < t.len() && i != j ==> (#[trigger] t[i]).0 != (#[trigger] t[j]).0
}

/// What `get` returns for an entry at `now`: its response while it has not expired.
pub open spec fn visible(e: Option<CacheEntryView>, now: u64) -> Option<ResponseView> {
    match e {
        Some(e) => if e.expires_at > now { Some(e.response) } else { None },
        None => None,
    }
}

/// The expiry time of an entry put at `now` with a time-to-live of `ttl_ms`
/// (held at the largest `u64`).
pub open spec fn expiry(now: u64, ttl_ms: u64) -> u64 {
    if now + ttl_ms > u64::MAX { u64::MAX } else { (now + ttl_ms) as u64 }
}

/// The entry that `put` stores for `response` at `now`.
pub open spec fn new_entry(response: ResponseView, now: u64, ttl_ms: u64) -> CacheEntryView {
    CacheEntryView { response, expires_at: expiry(now, ttl_ms), etag: Some(md5_hex(response.body)) }
}

proof fn lemma_lookup_unique(t: CacheTable, idx: int)
    requires
        keys_unique(t),
        0 <= idx < t.len(),
    ensures
        lookup(t, t[idx].0) == Some(t[idx].1),
    decreases t.len(),
{
    if idx > 0 {
        assert(t[0].0 != t[idx].0);
        let d = t.drop_first();
        assert(keys_unique(d)) by {
            assert forall|i: int, j: int| 0 <= i < d.len() && 0 <= j < d.len() && i != j implies (#[trigger] d[i]).0
                != (#[trigger] d[j]).0 by {
                assert(d[i] == t[i + 1] && d[j] == t[j + 1]);
            }
        }
        assert(d[idx - 1] == t[idx]);
        lemma_lookup_unique(d, idx - 1);
    }
}

proof fn lemma_lookup_absent(t: CacheTable, key: Seq<char>)
    requires
        forall|i: int| 0 <= i < t.len() ==> (#[trigger] t[i]).0 != key,
    ensures
        lookup(t, key) is None,
    decreases t.len(),
{
    if t.len() > 0 {
        assert forall|i: int| 0 <= i < t.drop_first().len() implies (#[trigger] t.drop_first()[i]).0 != key by {
            assert(t.drop_first()[i] == t[i + 1]);
        }
        lemma_lookup_absent(t.drop_first(), key);
    }
}

/// In a table with distinct keys, the entry under a key is the one that carries it.
proof fn lemma_lookup_cases(t: CacheTable, key: Seq<char>)
    requires
        keys_unique(t),
    ensures
        (exists|i: int| 0 <= i < t.len() && (#[trigger] t[i]).0 == key && lookup(t, key) == Some(t[i].1))
            || (lookup(t, key) is None && forall|i: int| 0 <= i < t.len() ==> (#[trigger] t[i]).0 != key),
{
    if exists|i: int| 0 <= i < t.len() && (#[trigger] t[i]).0 == key {
        let i = choose|i: int| 0 <= i < t.len() && (#[trigger] t[i]).0 == key;
        lemma_lookup_unique(t, i);
    } else {
        lemma_lookup_absent(t, key);
    }
}

/// How far a sweep at `now` has gone after the first `i` entries of `t0`:
/// `kept` holds, with distinct keys, exactly those of them that are fresh.
pub open spec fn sweep_progress(kept: CacheTable, t0: CacheTable, i: int, now: u64) -> bool {
    &&& keys_unique(kept)
    &&& forall|a: int| 0 <= a < kept.len() ==> exists|j: int| 0 <= j < i && #[trigger] kept[a] == t0[j] && t0[j].1.expires_at > now
    &&& forall|j: int| 0 <= j < i && (#[trigger] t0[j]).1.expires_at > now ==> exists|a: int| 0 <= a < kept.len() && #[trigger] kept[a] == t0[j]
}

proof fn lemma_sweep_step(kept: CacheTable, t0: CacheTable, i: int, now: u64)
    requires
        keys_unique(t0),
        0 <= i < t0.len(),
        sweep_progress(kept, t0, i, now),
    ensures
        t0[i].1.expires_at > now ==> sweep_progress(kept.push(t0[i]), t0, i + 1, now),
        t0[i].1.expires_at <= now ==> sweep_progress(kept, t0, i + 1, now),
{
    let k2 = kept.push(t0[i]);
    if t0[i].1.expires_at > now {
        assert forall|a: int| 0 <= a < k2.len() implies exists|j: int| 0 <= j < i + 1 && #[trigger] k2[a] == t0[j]
            && t0[j].1.expires_at > now by {
            if a < kept.len() {
                assert(k2[a] == kept[a]);
            } else {
                assert(k2[a] == t0[i]);
            }
        }
        assert forall|j: int| 0 <= j < i + 1 && (#[trigger] t0[j]).1.expires_at > now implies exists|a: int| 0 <= a
            < k2.len() && #[trigger] k2[a] == t0[j] by {
            if j < i {
                let a = choose|a: int| 0 <= a < kept.len() && #[trigger] kept[a] == t0[j];
                assert(k2[a] == kept[a]);
            } else {
                assert(k2[kept.len() as int] == t0[j]);
            }
        }
        assert forall|a: int, b: int| 0 <= a < k2.len() && 0 <= b < k2.len() && a != b implies (#[trigger] k2[a]).0
            != (#[trigger] k2[b]).0 by {
            if a < kept.len() && b < kept.len() {
                assert(k2[a] == kept[a] && k2[b] == kept[b]);
            } else if a < kept.len() {
                let j = choose|j: int| 0 <= j < i && #[trigger] kept[a] == t0[j] && t0[j].1.expires_at > now;
                assert(k2[a] == t0[j]);
                assert(t0[j].0 != t0[i].0);
            } else if b < kept.len() {
                let j = choose|j: int| 0 <= j < i && #[trigger] kept[b] == t0[j] && t0[j].1.expires_at > now;
                assert(k2[b] == t0[j]);
                assert(t0[j].0 != t0[i].0);
            }
        }
    } else {
        assert forall|j: int| 0 <= j < i + 1 && (#[trigger] t0[j]).1.expires_at > now implies exists|a: int| 0 <= a
            < kept.len() && #[trigger] kept[a] == t0[j] by {
        }
    }
}

/// Cached responses by key, each expiring a fixed time after it was put.
pub struct HttpCache {
    entries: Vec<(String, CacheEntry)>,
    default_ttl: u64,
}

impl HttpCache {
    pub closed spec fn table(&self) -> CacheTable {
        self.entries@.map_values(|e: (String, CacheEntry)| (e.0@, e.1@))
    }

    /// The time-to-live of new entries, in milliseconds.
    pub closed spec fn ttl_ms(&self) -> u64 {
        self.default_ttl
    }

    pub closed spec fn wf(&self) -> bool {
        keys_unique(self.table())
    }

    /// The entry under `key`, expired or not.
    pub open spec fn entry(&self, key: Seq<char>) -> Option<CacheEntryView> {
        lookup(self.table(), key)
    }

    /// A cache whose entries live `default_ttl_seconds` (in milliseconds,
    /// held at the largest `u64`).
    pub fn new(default_ttl_seconds: u64) -> (r: Self)
        ensures
            r.wf(),
            r.ttl_ms() == if default_ttl_seconds * 1000 > u64::MAX { u64::MAX as int } else { default_ttl_seconds * 1000 },
            forall|k: Seq<char>| #[trigger] r.entry(k) is None,
    {
        let ttl: u64 = if default_ttl_seconds > u64::MAX / 1000 { u64::MAX } else { default_ttl_seconds * 1000 };
        let r = HttpCache { entries: Vec::new(), default_ttl: ttl };
        assert(r.table().len() == 0);
        r
    }

    fn find(&self, key: &str) -> (r: Option<usize>)
        requires
            self.wf(),
        ensures
            match r {
                Some(i) => i < self.table().len() && self.table()[i as int].0 == key@,
                None => forall|i: int| 0 <= i < self.table().len() ==> (#[trigger] self.table()[i]).0 != key@,
            },
    {
        let mut i: usize = 0;
        while i < self.entries.len()
            invariant
                i <= self.entries@.len(),
                forall|j: int| 0 <= j < i ==> (#[trigger] self.table()[j]).0 != key@,
            decreases self.entries@.len() - i,
        {
            if crate::load_balancing::string_eq_str(&self.entries[i].0, key) {
                return Some(i);
            }
            i = i + 1;
        }
        None
    }

    /// The cached response under `key`, while it has not expired at `now`.
    pub fn get(&self, key: &str, now: u64) -> (r: Option<HttpResponse>)
        requires
            self.wf(),
        ensures
            match r {
                Some(resp) => visible(self.entry(key@), now) == Some(resp@),
                None => visible(self.entry(key@), now) is None,
            },
    {
        match self.find(key) {
            Some(i) => {
                proof {
                    lemma_lookup_unique(self.table(), i as int);
                }
                let e = &self.entries[i].1;
                if e.expires_at > now {
                    Some(e.response.duplicate())
                } else {
                    None
                }
            },
            None => {
                proof {
                    lemma_lookup_absent(self.table(), key@);
                }
                None
            },
        }
    }

    /// Stores `response` under `key` at `now`, replacing any entry there; the
    /// entry expires one time-to-live later and carries its body's ETag.
    pub fn put(&mut self, key: String, response: HttpResponse, now: u64)
        requires
            old(self).wf(),
        ensures
            final(self).wf(),
            final(self).ttl_ms() == old(self).ttl_ms(),
            final(self).entry(key@) == Some(new_entry(response@, now, old(self).ttl_ms())),
            forall|k: Seq<char>| k != key@ ==> #[trigger] final(self).entry(k) == old(self).entry(k),
    {
        let expires_at = now.saturating_add(self.default_ttl);
        let etag = body_etag(&response.body);
        let entry = CacheEntry { response, expires_at, etag: Some(etag) };
        let ghost t0 = self.table();
        let ghost kv = (key@, entry@);
        match self.find(key.as_str()) {
            Some(i) => {
                self.entries.set(i, (key, entry));
                proof {
                    assert(self.table() =~= t0.update(i as int, kv));
                    self.lemma_after_update(t0, i as int, kv);
                }
            },
            None => {
                self.entries.push((key, entry));
                proof {
                    assert(self.table() =~= t0.push(kv));
                    assert(self.table()[t0.len() as int] == kv);
                    lemma_lookup_unique(self.table(), t0.len() as int);
                    assert forall|k: Seq<char>| k != kv.0 implies #[trigger] lookup(self.table(), k) == lookup(t0, k) by {
                        lemma_lookup_cases(t0, k);
                        lemma_lookup_cases(self.table(), k);
                        if exists|i: int| 0 <= i < t0.len() && (#[trigger] t0[i]).0 == k {
                            let i = choose|i: int| 0 <= i < t0.len() && (#[trigger] t0[i]).0 == k;
                            assert(self.table()[i] == t0[i]);
                            lemma_lookup_unique(self.table(), i);
                            lemma_lookup_unique(t0, i);
                        } else {
                            assert forall|i: int| 0 <= i < self.table().len() implies (#[trigger] self.table()[i]).0 != k by {
                                if i < t0.len() {
                                    assert(self.table()[i] == t0[i]);
                                }
                            }
                            lemma_lookup_absent(self.table(), k);
                        }
                    }
                }
            },
        }
    }

    proof fn lemma_after_update(&self, t0: CacheTable, i: int, kv: (Seq<char>, CacheEntryView))
        requires
            keys_unique(t0),
            0 <= i < t0.len(),
            t0[i].0 == kv.0,
            self.table() == t0.update(i, kv),
        ensures
            self.wf(),
            lookup(self.table(), kv.0) == Some(kv.1),
            forall|k: Seq<char>| k != kv.0 ==> #[trigger] lookup(self.table(), k) == lookup(t0, k),
    {
        let t1 = self.table();
        assert(keys_unique(t1)) by {
            assert forall|a: int, b: int| 0 <= a < t1.len() && 0 <= b < t1.len() && a != b implies (#[trigger] t1[a]).0
                != (#[trigger] t1[b]).0 by {
                assert(t1[a].0 == t0[a].0);
                assert(t1[b].0 == t0[b].0);
            }
        }
        lemma_lookup_unique(t1, i);
        assert forall|k: Seq<char>| k != kv.0 implies #[trigger] lookup(t1, k) == lookup(t0, k) by {
            lemma_lookup_cases(t0, k);
            if exists|j: int| 0 <= j < t0.len() && (#[trigger] t0[j]).0 == k {
                let j = choose|j: int| 0 <= j < t0.len() && (#[trigger] t0[j]).0 == k;
                assert(j != i);
                assert(t1[j] == t0[j]);
                lemma_lookup_unique(t1, j);
                lemma_lookup_unique(t0, j);
            } else {
                assert forall|j: int| 0 <= j < t1.len() implies (#[trigger] t1[j]).0 != k by {
                    assert(t1[j].0 == t0[j].0 || j == i);
                }
                lemma_lookup_absent(t1, k);
            }
        }
    }

    /// Drops every entry that has expired at `now` and keeps the others.
    pub fn remove_expired(&mut self, now: u64)
        requires
            old(self).wf(),
        ensures
            final(self).wf(),
            final(self).ttl_ms() == old(self).ttl_ms(),
            forall|k: Seq<char>| #[trigger] final(self).entry(k) == match old(self).entry(k) {
                Some(e) => if e.expires_at > now { Some(e) } else { None },
                None => None,
            },
    {
        let ghost t0 = self.table();
        let mut kept: Vec<(String, CacheEntry)> = Vec::new();
        let n = self.entries.len();
        let mut i: usize = 0;
        assert(kept@.map_values(|e: (String, CacheEntry)| (e.0@, e.1@)) =~= Seq::<(Seq<char>, CacheEntryView)>::empty());
        while i < n
            invariant
                n == t0.len(),
                i <= n,
                t0 == self.table(),
                keys_unique(t0),
                sweep_progress(kept@.map_values(|e: (String, CacheEntry)| (e.0@, e.1@)), t0, i as int, now),
            decreases n - i,
        {
            let e = &self.entries[i].1;
            assert(t0[i as int] == (self.entries@[i as int].0@, e@));
            let ghost kv = kept@.map_values(|e: (String, CacheEntry)| (e.0@, e.1@));
            proof {
                lemma_sweep_step(kv, t0, i as int, now);
            }
            if e.expires_at > now {
                let copy = CacheEntry {
                    response: e.response.duplicate(),
                    expires_at: e.expires_at,
                    etag: match &e.etag {
                        Some(t) => Some(copy_text(t)),
                        None => None,
                    },
                };
                kept.push((copy_text(&self.entries[i].0), copy));
                assert(kept@.map_values(|e: (String, CacheEntry)| (e.0@, e.1@)) =~= kv.push(t0[i as int]));
            }
            i = i + 1;
        }
        self.entries = kept;
        proof {
            let t1 = self.table();
            assert forall|k: Seq<char>| #[trigger] lookup(t1, k) == match lookup(t0, k) {
                Some(e) => if e.expires_at > now { Some(e) } else { None },
                None => None,
            } by {
                lemma_lookup_cases(t0, k);
                lemma_lookup_cases(t1, k);
                if exists|a: int| 0 <= a < t1.len() && (#[trigger] t1[a]).0 == k {
                    let a = choose|a: int| 0 <= a < t1.len() && (#[trigger] t1[a]).0 == k;
                    let j = choose|j: int| 0 <= j < n && #[trigger] t1[a] == t0[j] && t0[j].1.expires_at > now;
                    lemma_lookup_unique(t0, j);
                    lemma_lookup_unique(t1, a);
                } else if exists|j: int| 0 <= j < t0.len() && (#[trigger] t0[j]).0 == k {
                    let j = choose|j: int| 0 <= j < t0.len() && (#[trigger] t0[j]).0 == k;
                    lemma_lookup_unique(t0, j);
                    if t0[j].1.expires_at > now {
                        let a = choose|a: int| 0 <= a < t1.len() && #[trigger] t1[a] == t0[j];
                        assert(t1[a].0 == k);
                    }
                }
            }
        }
    }

    /// Drops every entry.
    pub fn clear(&mut self)
        ensures
            final(self).wf(),
            final(self).ttl_ms() == old(self).ttl_ms(),
            forall|k: Seq<char>| #[trigger] final(self).entry(k) is None,
    {
        self.entries = Vec::new();
        assert(self.table().len() == 0);
    }

    /// The ETag of the entry under `key`, expired or not.
    pub fn get_etag(&self, key: &str) -> (r: Option<String>)
        requires
            self.wf(),
        ensures
            match r {
                Some(t) => self.entry(key@) matches Some(e) && e.etag == Some(t@),
                None => self.entry(key@) matches Some(e) ==> e.etag is None,
            },
    {
        match self.find(key) {
            Some(i) => {
                proof {
                    lemma_lookup_unique(self.table(), i as int);
                }
                match &self.entries[i].1.etag {
                    Some(t) => Some(copy_text(t)),
                    None => None,
                }
            },
            None => {
                proof {
                    lemma_lookup_absent(self.table(), key@);
                }
                None
            },
        }
    }
}

/// Cache expiry: the entry that `put` stores at `put_at` with a time-to-live
/// of `ttl_ms` is returned by `get` at any time before `put_at + ttl_ms`, and
/// missed at that time and after.
pub proof fn lemma_cache_expiry(response: ResponseView, put_at: u64, ttl_ms: u64, t: u64)
    requires
        put_at + ttl_ms <= u64::MAX,
    ensures
        visible(Some(new_entry(response, put_at, ttl_ms)), t) == if t < put_at + ttl_ms {
            Some(response)
        } else {
            None
        },
{
}

} // verus!
