//! The request pipeline of the proxy. For each request it decides what to
//! do (answer at once, forward to a backend, serve a static file, read or
//! replace the configuration) and, once a backend has answered, finishes the
//! response (compression, caching, counters). Sockets and files stay with
//! the caller.

use vstd::prelude::*;
use vstd::string::StringExecFns;
use vstd::utf8::encode_utf8;
use vstd::slice::slice_to_vec;
use crate::access_control::{AccessDecision, IpFilter, IpNetwork, network_of, parse_network};
use crate::cache::{HttpCache, new_entry, visible};
use crate::compression::{CompressionModule, gzip_of, gzipped_response, should_compress};
use crate::config::{Config, UpstreamServer};
use crate::http::{HttpRequest, HttpResponse, RequestView, ResponseView, forwarded_spec, header_value, rewrite_for_backend, set_header};
use crate::load_balancing::{Algorithm, IpHash, LeastConnections, LoadBalancer, LoadBalancingAlgorithm, LoadBalancingContext,
    RoundRobin, WeightedRoundRobin, str_eq};
use crate::monitoring::{ServerStats, StatusPage, fill_template, html_pieces, json_pieces, status_fields, sat_add};
use crate::router::{Route, path_of, request_path, resolve_static_path, route, route_of, static_segments};

verus! {

/// The client that forwards requests; it holds no state of its own.
#[derive(Clone, Copy)]
pub struct HttpClient;

impl HttpClient {
    pub fn new() -> (r: Self) {
        HttpClient
    }
}

/// A proxy to one backend: rewrites requests for it.
pub struct ReverseProxy {
    pub backend_addr: String,
}

impl ReverseProxy {
    pub fn new(backend_addr: String) -> (r: Self)
        ensures
            r.backend_addr == backend_addr,
    {
        ReverseProxy { backend_addr }
    }

    /// The request as it goes to this proxy's backend.
    pub fn forward_request(&self, req: &HttpRequest) -> (r: HttpRequest)
        ensures
            r@ == forwarded_spec(req@, self.backend_addr@),
    {
        rewrite_for_backend(req, self.backend_addr.as_str())
    }
}

/// What the caller is to do with a request.
pub enum Action {
    /// Send this response.
    Respond(HttpResponse),
    /// Send `request` to `backend` and hand its answer to `complete_forward`.
    Forward { backend: String, request: HttpRequest },
    /// Serve the file at these segments below the static root.
    ServeStatic { segments: Vec<String> },
    /// Answer with the current configuration.
    ReadConfig,
    /// Replace the configuration with the request body.
    WriteConfig,
}

/// A response with a plain-text body.
pub fn text_response(status: u16, text: &str) -> (r: HttpResponse)
    ensures
        r@ == (ResponseView { status, headers: Seq::empty(), body: encode_utf8(text@) }),
{
    HttpResponse::new(status, slice_to_vec(text.as_bytes()))
}

/// The answer to a preflight: 200, empty, with permissive CORS headers.
pub fn preflight_response() -> (r: HttpResponse)
    ensures
        r@.status == 200,
        r@.body.len() == 0,
        header_value(r@.headers, "access-control-allow-origin"@) == Some("*"@),
        header_value(r@.headers, "access-control-allow-methods"@) == Some("GET, POST, PUT, DELETE, OPTIONS"@),
        header_value(r@.headers, "access-control-allow-headers"@) == Some("Content-Type, Authorization"@),
        header_value(r@.headers, "access-control-max-age"@) == Some("86400"@),
{
    proof {
        reveal_strlit("access-control-allow-origin");
        reveal_strlit("access-control-allow-methods");
        reveal_strlit("access-control-allow-headers");
        reveal_strlit("access-control-max-age");
    }
    let ghost o = "access-control-allow-origin"@;
    let ghost m = "access-control-allow-methods"@;
    let ghost h = "access-control-allow-headers"@;
    let ghost a = "access-control-max-age"@;
    proof {
        assert(!crate::text::eq_ignore_ascii_case(m, h)) by {
            assert(crate::text::ascii_lower(m[21]) != crate::text::ascii_lower(h[21]));
        }
        assert(!crate::text::eq_ignore_ascii_case(h, m)) by {
            assert(crate::text::ascii_lower(m[21]) != crate::text::ascii_lower(h[21]));
        }
    }
    let mut r = HttpResponse::new(200, Vec::new());
    let ghost h0 = r@.headers;
    set_header(&mut r.headers, "access-control-allow-methods", "GET, POST, PUT, DELETE, OPTIONS");
    let ghost h1 = r@.headers;
    set_header(&mut r.headers, "access-control-allow-headers", "Content-Type, Authorization");
    let ghost h2 = r@.headers;
    set_header(&mut r.headers, "access-control-max-age", "86400");
    let ghost h3 = r@.headers;
    set_header(&mut r.headers, "access-control-allow-origin", "*");
    proof {
        let vm = "GET, POST, PUT, DELETE, OPTIONS"@;
        let vh = "Content-Type, Authorization"@;
        let va = "86400"@;
        let vo = "*"@;
        crate::compression::lemma_header_after_set(h0, m, vm);
        crate::compression::lemma_header_set_other(h1, h, vh, m);
        crate::compression::lemma_header_after_set(h1, h, vh);
        crate::compression::lemma_header_set_other(h2, a, va, m);
        crate::compression::lemma_header_set_other(h2, a, va, h);
        crate::compression::lemma_header_after_set(h2, a, va);
        crate::compression::lemma_header_set_other(h3, o, vo, m);
        crate::compression::lemma_header_set_other(h3, o, vo, h);
        crate::compression::lemma_header_set_other(h3, o, vo, a);
        crate::compression::lemma_header_after_set(h3, o, vo);
    }
    r
}

/// `s` without spaces at either end.
pub open spec fn trim_spaces(s: Seq<char>) -> Seq<char>
    decreases s.len(),
{
    if s.len() > 0 && s[0] == ' ' {
        trim_spaces(s.drop_first())
    } else if s.len() > 0 && s.last() == ' ' {
        trim_spaces(s.drop_last())
    } else {
        s
    }
}

pub fn trim(s: &str) -> (r: String)
    ensures
        r@ == trim_spaces(s@),
{
    let n = s.unicode_len();
    let mut a: usize = 0;
    let mut b: usize = n;
    assert(s@.subrange(0, n as int) =~= s@);
    while a < b && (s.get_char(a) == ' ' || s.get_char(b - 1) == ' ')
        invariant
            n == s@.len(),
            a <= b <= n,
            trim_spaces(s@) == trim_spaces(s@.subrange(a as int, b as int)),
        decreases b - a,
    {
        let ghost t = s@.subrange(a as int, b as int);
        if s.get_char(a) == ' ' {
            assert(t.drop_first() =~= s@.subrange(a as int + 1, b as int));
            a = a + 1;
        } else {
            assert(t[0] != ' ');
            assert(t.drop_last() =~= s@.subrange(a as int, b as int - 1));
            b = b - 1;
        }
    }
    let t = s.substring_char(a, b).to_owned();
    proof {
        let u = s@.subrange(a as int, b as int);
        if u.len() > 0 {
            assert(u[0] == s@[a as int]);
            assert(u.last() == s@[b as int - 1]);
        }
    }
    t
}

/// The client's address: the first entry of `X-Forwarded-For` when the
/// request has one, else `X-Real-IP`, else the peer's address; spaces trimmed.
pub open spec fn client_address_of(req: RequestView, peer: Seq<char>) -> Seq<char> {
    match header_value(req.headers, "x-forwarded-for"@) {
        Some(f) => trim_spaces(crate::text::split_on(f, ',')[0]),
        None => match header_value(req.headers, "x-real-ip"@) {
            Some(r) => trim_spaces(r),
            None => peer,
        },
    }
}

pub fn client_address(req: &HttpRequest, peer: &str) -> (r: String)
    ensures
        r@ == client_address_of(req@, peer@),
{
    match req.header("x-forwarded-for") {
        Some(f) => {
            let parts = crate::text::split_text(f.as_str(), ',');
            proof {
                crate::text::lemma_split_nonempty(f@, ',');
            }
            assert(parts@[0]@ == crate::text::split_on(f@, ',')[0]);
            trim(parts[0].as_str())
        },
        None => match req.header("x-real-ip") {
            Some(r) => trim(r.as_str()),
            None => peer.to_owned(),
        },
    }
}

fn copy_counts(v: &Vec<usize>) -> (r: Vec<usize>)
    ensures
        r@ == v@,
{
    let mut r: Vec<usize> = Vec::new();
    let mut i: usize = 0;
    while i < v.len()
        invariant
            i <= v@.len(),
            r@ == v@.take(i as int),
        decreases v@.len() - i,
    {
        r.push(v[i]);
        i = i + 1;
        assert(r@ =~= v@.take(i as int));
    }
    assert(v@.take(v@.len() as int) =~= v@);
    r
}

/// The cache key of a request: its method, a space, and its path.
pub open spec fn cache_key(req: RequestView) -> Seq<char> {
    req.method + seq![' '] + path_of(req.uri)
}

/// The pool that a configuration asks for: the upstream servers when there
/// are any; else the single backend address when it is set; else none.
pub open spec fn pool_of(config: Config) -> Seq<Seq<char>> {
    match config.upstream_servers() {
        Some(s) if s.len() > 0 => s.map_values(|u: UpstreamServer| u.address@),
        _ => if config.server.backend_addr@.len() > 0 { seq![config.server.backend_addr@] } else { Seq::empty() },
    }
}

/// The configured name of the selection algorithm.
pub open spec fn algorithm_name(config: Config) -> Option<Seq<char>> {
    match config.upstream {
        Some(u) => match u.load_balancing_algorithm {
            Some(n) => Some(n@),
            None => None,
        },
        None => None,
    }
}

/// The weights that the upstream servers carry, by address (1 when unset);
/// none when there are no upstream servers.
pub open spec fn weights_of(config: Config) -> Seq<(Seq<char>, u32)> {
    match config.upstream_servers() {
        Some(s) if s.len() > 0 => s.map_values(|u: UpstreamServer| (u.address@, u.weight.unwrap_or(1))),
        _ => Seq::empty(),
    }
}

/// The compression settings that a configuration asks for: its level (6
/// when unset, at most 9), its minimum length (1024 when unset) and its
/// content types (the compressor's default list when unset).
pub open spec fn compression_of(config: Config) -> crate::compression::CompressionSettings {
    let l = config.features.gzip.gzip_comp_level.unwrap_or(6);
    crate::compression::CompressionSettings {
        level: if l > 9 { 9 } else { l },
        min_length: match config.features.gzip.gzip_min_length {
            Some(m) => m as nat,
            None => 1024,
        },
        types: match crate::config::opt_texts(config.features.gzip.gzip_types) {
            Some(t) => t,
            None => crate::compression::default_types(),
        },
    }
}

/// The networks that a list of texts names, the texts that name none left out.
pub open spec fn networks_of(texts: Seq<Seq<char>>) -> Seq<IpNetwork>
    decreases texts.len(),
{
    if texts.len() == 0 {
        Seq::empty()
    } else {
        match network_of(texts.last()) {
            Ok(n) => networks_of(texts.drop_last()).push(n),
            Err(_) => networks_of(texts.drop_last()),
        }
    }
}

/// The seconds that a duration text names: digits with an optional unit
/// `s`, `m`, `h` or `d` (seconds without one), the number at most 10^9.
pub open spec fn duration_secs(t: Seq<char>) -> Option<nat> {
    let unit: nat = if t.len() == 0 { 0 } else if t.last() == 's' { 1 } else if t.last() == 'm' { 60 }
        else if t.last() == 'h' { 3600 } else if t.last() == 'd' { 86400 } else { 0 };
    let digits = if unit > 0 { t.drop_last() } else { t };
    let scale: nat = if unit > 0 { unit } else { 1 };
    match crate::text::decimal_at_most(digits, 1_000_000_000) {
        Some(v) => Some(v * scale),
        None => None,
    }
}

pub fn parse_duration_secs(t: &str) -> (r: Option<u64>)
    ensures
        match r {
            Some(v) => duration_secs(t@) == Some(v as nat),
            None => duration_secs(t@) is None,
        },
{
    let n = t.unicode_len();
    let last = if n > 0 { t.get_char(n - 1) } else { ' ' };
    let unit: u64 = if n == 0 { 0 } else if last == 's' { 1 } else if last == 'm' { 60 } else if last == 'h' { 3600 }
        else if last == 'd' { 86400 } else { 0 };
    let digits = if unit > 0 { t.substring_char(0, n - 1) } else { t };
    assert(unit > 0 ==> digits@ =~= t@.drop_last());
    let scale: u64 = if unit > 0 { unit } else { 1 };
    match crate::text::parse_decimal(digits, 1_000_000_000) {
        Some(v) => Some(v * scale),
        None => None,
    }
}

/// The time-to-live of cached entries for a configuration: its
/// `cache_inactive` duration, or one hour where that is unset or unreadable.
pub open spec fn cache_ttl_secs(config: Config) -> nat {
    match config.features.cache.cache_inactive {
        Some(t) => match duration_secs(t@) {
            Some(v) => v,
            None => 3600,
        },
        None => 3600,
    }
}

/// The proxy: configuration, counters, pool, access rules, cache and compressor.
pub struct ProxyServer {
    config: Config,
    http_client: HttpClient,
    stats: ServerStats,
    balancer: LoadBalancer,
    filter: IpFilter,
    cache: HttpCache,
    compressor: CompressionModule,
    backend_connections: Vec<usize>,
}

impl ProxyServer {
    /// Open forwarded requests of each backend, by position in the pool.
    pub closed spec fn gauge(&self) -> Seq<usize> {
        self.backend_connections@
    }

    pub closed spec fn algorithm(&self) -> Algorithm {
        self.balancer.algo()
    }

    pub closed spec fn stats(&self) -> ServerStats {
        self.stats
    }

    pub closed spec fn pool(&self) -> Seq<String> {
        self.balancer.pool()
    }

    pub closed spec fn settings(&self) -> Config {
        self.config
    }

    pub closed spec fn filter(&self) -> IpFilter {
        self.filter
    }

    pub closed spec fn cache(&self) -> HttpCache {
        self.cache
    }

    pub closed spec fn compressor(&self) -> CompressionModule {
        self.compressor
    }

    pub closed spec fn wf(&self) -> bool {
        &&& self.cache.wf()
        &&& self.compressor.wf()
        &&& self.backend_connections@.len() == self.balancer.pool().len()
    }

    /// The stats path that routing uses.
    pub open spec fn stats_path(&self) -> Option<Seq<char>> {
        match self.settings().features.monitoring.stats_path {
            Some(p) => Some(p@),
            None => None,
        }
    }

    fn networks(texts: &Option<Vec<String>>) -> (r: Vec<IpNetwork>)
        ensures
            r@ == networks_of(crate::config::opt_texts(*texts).unwrap_or(Seq::empty())),
    {
        let mut r: Vec<IpNetwork> = Vec::new();
        match texts {
            None => {
                assert(crate::config::opt_texts(*texts).unwrap_or(Seq::empty()) =~= Seq::<Seq<char>>::empty());
            },
            Some(v) => {
                let ghost ts = v@.map_values(|t: String| t@);
                let mut i: usize = 0;
                while i < v.len()
                    invariant
                        ts == v@.map_values(|t: String| t@),
                        i <= v@.len(),
                        r@ == networks_of(ts.take(i as int)),
                    decreases v@.len() - i,
                {
                    assert(ts.take(i as int + 1).drop_last() =~= ts.take(i as int));
                    match parse_network(v[i].as_str()) {
                        Ok(n) => r.push(n),
                        Err(_) => {},
                    }
                    i = i + 1;
                }
                assert(ts.take(v@.len() as int) =~= ts);
            },
        }
        r
    }

    /// A proxy for `config`, started at `start_time` (seconds since the epoch).
    /// The pool is `pool_of(config)`; the algorithm is weighted round-robin
    /// for "weighted_round_robin" or "weighted", least-connections for
    /// "least_connections" or "least_conn", IP-hash for "ip_hash", and
    /// round-robin otherwise. Access lists take the entries that name a
    /// network; the budget, gzip level, minimum length (1024 when unset) and
    /// content types (the compressor's own list when unset) come from the
    /// configuration; cached entries live `cache_ttl_secs(config)`.
    pub fn new(config: Config, start_time: u64) -> (r: Self)
        ensures
            r.wf(),
            r.settings() == config,
            r.stats() == ServerStats::new_spec(start_time),
            r.pool().map_values(|b: String| b@) == pool_of(config),
            r.filter().allowed_networks() == networks_of(
                crate::config::opt_texts(config.features.access_control.allow_ips).unwrap_or(Seq::empty())),
            r.filter().denied_networks() == networks_of(
                crate::config::opt_texts(config.features.access_control.deny_ips).unwrap_or(Seq::empty())),
            r.filter().limit() == match config.features.access_control.max_requests_per_minute {
                Some(m) => m,
                None => 1000,
            },
            forall|c: Seq<char>| #[trigger] r.filter().window(c) is None,
            forall|k: Seq<char>| #[trigger] r.cache().entry(k) is None,
            r.cache().ttl_ms() == cache_ttl_secs(config) * 1000,
            r.compressor().settings() == compression_of(config),
            algorithm_name(config) == Some("weighted_round_robin"@) || algorithm_name(config) == Some("weighted"@)
                ==> (r.algorithm() matches Algorithm::WeightedRoundRobin(w) && w.cursor() == 0
                && w.weight_entries().map_values(|e: (String, u32)| (e.0@, e.1)) == weights_of(config)),
            algorithm_name(config) == Some("least_connections"@) || algorithm_name(config) == Some("least_conn"@)
                ==> r.algorithm() is LeastConnections,
            algorithm_name(config) == Some("ip_hash"@) ==> r.algorithm() is IpHash,
            !(algorithm_name(config) == Some("weighted_round_robin"@) || algorithm_name(config) == Some("weighted"@)
                || algorithm_name(config) == Some("least_connections"@) || algorithm_name(config) == Some("least_conn"@)
                || algorithm_name(config) == Some("ip_hash"@))
                ==> (r.algorithm() matches Algorithm::RoundRobin(a) && a.cursor() == 0),
    {
        let mut balancer = LoadBalancer::new();
        let mut weights: Vec<(String, u32)> = Vec::new();
        let ghost cfg = config;
        let mut added = false;
        match config.get_upstream_servers() {
            Some(servers) => {
                if servers.len() > 0 {
                    let ghost ss = servers@;
                    let mut i: usize = 0;
                    while i < servers.len()
                        invariant
                            ss == servers@,
                            i <= ss.len(),
                            balancer.pool().len() == i,
                            forall|j: int| 0 <= j < i ==> #[trigger] balancer.pool()[j]@ == ss[j].address@,
                            weights@.len() == i,
                            forall|j: int| 0 <= j < i ==> (#[trigger] weights@[j]).0@ == ss[j].address@
                                && weights@[j].1 == ss[j].weight.unwrap_or(1),
                            balancer.algo() matches Algorithm::RoundRobin(a) && a.cursor() == 0,
                        decreases ss.len() - i,
                    {
                        let s = &servers[i];
                        balancer.add_backend(s.address.clone());
                        weights.push((s.address.clone(), match s.weight { Some(w) => w, None => 1 }));
                        i = i + 1;
                    }
                    assert(balancer.pool().map_values(|b: String| b@) =~= ss.map_values(|u: UpstreamServer| u.address@));
                    assert(weights@.map_values(|e: (String, u32)| (e.0@, e.1)) =~= weights_of(config));
                    added = true;
                }
            },
            None => {},
        }
        if !added {
            assert(weights@.map_values(|e: (String, u32)| (e.0@, e.1)) =~= weights_of(config));
        }
        if !added && config.server.backend_addr.as_str().unicode_len() > 0 {
            balancer.add_backend(config.server.backend_addr.clone());
            assert(balancer.pool().map_values(|b: String| b@) =~= seq![config.server.backend_addr@]);
        }
        if !added && config.server.backend_addr.as_str().unicode_len() == 0 {
            assert(balancer.pool().map_values(|b: String| b@) =~= Seq::<Seq<char>>::empty());
        }
        proof {
            reveal_strlit("weighted_round_robin");
            reveal_strlit("weighted");
            reveal_strlit("least_connections");
            reveal_strlit("least_conn");
            reveal_strlit("ip_hash");
            assert("weighted_round_robin"@.len() == 20 && "weighted"@.len() == 8 && "least_connections"@.len() == 17
                && "least_conn"@.len() == 10 && "ip_hash"@.len() == 7);
        }
        let algorithm = match config.get_load_balancing_algorithm() {
            Some(name) => {
                let n = name.as_str();
                if str_eq(n, "weighted_round_robin") || str_eq(n, "weighted") {
                    Algorithm::WeightedRoundRobin(WeightedRoundRobin::new(weights))
                } else if str_eq(n, "least_connections") || str_eq(n, "least_conn") {
                    Algorithm::LeastConnections(LeastConnections::new())
                } else if str_eq(n, "ip_hash") {
                    Algorithm::IpHash(IpHash::new())
                } else {
                    Algorithm::RoundRobin(RoundRobin::new())
                }
            },
            None => Algorithm::RoundRobin(RoundRobin::new()),
        };
        let balancer = balancer.with_algorithm(algorithm);
        let mut filter = IpFilter::new(config.get_max_requests_per_minute());
        let ghost f0 = filter;
        let allow = Self::networks(&config.features.access_control.allow_ips);
        let deny = Self::networks(&config.features.access_control.deny_ips);
        filter.set_lists(allow, deny);
        assert forall|c: Seq<char>| #[trigger] filter.window(c) is None by {
            assert(f0.window(c) is None);
            assert(filter.table() == f0.table());
        }
        let level = config.get_gzip_comp_level();
        let min_length: usize = match config.features.gzip.gzip_min_length { Some(m) => m as usize, None => 1024 };
        let compressor = match &config.features.gzip.gzip_types {
            Some(types) => CompressionModule::with_settings(level, min_length, crate::text::clone_texts(types)),
            None => {
                let base = CompressionModule::new();
                CompressionModule::with_settings(level, min_length, base.types_owned())
            },
        };
        let ttl: u64 = match &config.features.cache.cache_inactive {
            Some(t) => match parse_duration_secs(t.as_str()) {
                Some(v) => v,
                None => 3600,
            },
            None => 3600,
        };
        let mut backend_connections: Vec<usize> = Vec::new();
        let mut k: usize = 0;
        while k < balancer.get_backends().len()
            invariant
                backend_connections@.len() == k,
                k <= balancer.pool().len(),
                forall|j: int| 0 <= j < k ==> backend_connections@[j] == 0,
            decreases balancer.pool().len() - k,
        {
            backend_connections.push(0);
            k = k + 1;
        }
        ProxyServer {
            config,
            http_client: HttpClient::new(),
            stats: ServerStats::new(start_time),
            balancer,
            filter,
            cache: HttpCache::new(ttl),
            compressor,
            backend_connections,
        }
    }
}


impl ProxyServer {
    /// Where a request goes under this proxy's configuration and pool.
    pub open spec fn route_for(&self, req: RequestView) -> Route {
        route_of(req.method, path_of(req.uri), self.stats_path(), self.pool().len() > 0)
    }

    /// What the access rules decide for `ip` at `now`, as `IpFilter::evaluate` does.
    pub open spec fn access_for(&self, ip: Seq<char>, now: u64) -> AccessDecision {
        if self.settings().features.access_control.access_control != Some(true) {
            AccessDecision::Allow
        } else if !self.filter().lists_let_through(ip) {
            AccessDecision::Forbidden
        } else if self.settings().features.access_control.rate_limiting == Some(true)
            && crate::access_control::rate_step(self.filter().window(ip), now).request_count > self.filter().limit() {
            AccessDecision::TooManyRequests
        } else {
            AccessDecision::Allow
        }
    }

    /// Whether a request counts in its client's rate window: it goes to the
    /// pool or the static tree, access control and rate limiting are on, and
    /// the lists let the client through.
    pub open spec fn counts_window(&self, req: RequestView, ip: Seq<char>) -> bool {
        &&& (self.route_for(req) == Route::Proxy || self.route_for(req) == Route::StaticFile)
        &&& self.settings().features.access_control.access_control == Some(true)
        &&& self.filter().lists_let_through(ip)
        &&& self.settings().features.access_control.rate_limiting == Some(true)
    }

    /// Whether a response may come out compressed for a client that sent `accept`.
    pub open spec fn compresses(&self, resp: ResponseView, accept: Seq<char>) -> bool {
        self.settings().features.gzip.gzip_compression == Some(true)
            && should_compress(self.compressor().settings(), resp, accept)
    }

    /// The response that goes to a client that sent `accept`: the gzipped
    /// response when the rules call for it, `resp` itself otherwise.
    pub open spec fn finished(&self, resp: ResponseView, accept: Seq<char>) -> ResponseView {
        if self.compresses(resp, accept) {
            gzipped_response(resp, gzip_of(self.compressor().settings().level, resp.body))
        } else {
            resp
        }
    }

    fn accept_encoding(req: &HttpRequest) -> (r: String)
        ensures
            r@ == header_value(req@.headers, "accept-encoding"@).unwrap_or(Seq::empty()),
    {
        match req.header("accept-encoding") {
            Some(v) => v,
            None => String::new(),
        }
    }

    fn finish(&self, resp: HttpResponse, accept: &str) -> (r: HttpResponse)
        requires
            self.wf(),
        ensures
            r@ == self.finished(resp@, accept@),
    {
        if !self.config.is_gzip_enabled() {
            return resp;
        }
        let keep = resp.duplicate();
        match self.compressor.compress_response(resp, accept) {
            Ok(out) => out,
            Err(_) => keep,
        }
    }

    fn cache_key_of(req: &HttpRequest) -> (r: String)
        ensures
            r@ == cache_key(req@),
    {
        let mut k = req.method.clone();
        proof {
            reveal_strlit(" ");
        }
        k.append(" ");
        let path = request_path(req.uri.as_str());
        k.append(path.as_str());
        assert(" "@ =~= seq![' ']);
        k
    }

    fn page_response(page: String, content_type: &str) -> (r: HttpResponse)
        ensures
            r@.status == 200,
            r@.body == encode_utf8(page@),
            header_value(r@.headers, "content-type"@) == Some(content_type@),
    {
        let mut r = HttpResponse::new(200, slice_to_vec(page.as_str().as_bytes()));
        set_header(&mut r.headers, "content-type", content_type);
        proof {
            crate::compression::lemma_header_after_set(Seq::empty(), "content-type"@, content_type@);
        }
        r
    }

    /// One more (`up`) or one fewer open request for the first backend of
    /// the pool with the address `backend`; nothing else changes.
    fn adjust_gauge(&mut self, backend: &str, up: bool)
        requires
            old(self).wf(),
        ensures
            final(self).wf(),
            final(self).config == old(self).config,
            final(self).stats == old(self).stats,
            final(self).balancer == old(self).balancer,
            final(self).filter == old(self).filter,
            final(self).cache == old(self).cache,
            final(self).compressor == old(self).compressor,
    {
        match self.pool_index(backend) {
            Some(i) => {
                let c = self.backend_connections[i];
                let next = if up { c.saturating_add(1) } else if c > 0 { c - 1 } else { 0 };
                self.backend_connections.set(i, next);
            },
            None => {},
        }
    }

    fn pool_index(&self, backend: &str) -> (r: Option<usize>)
        requires
            self.wf(),
        ensures
            r matches Some(i) ==> i < self.backend_connections@.len(),
    {
        let pool = self.balancer.get_backends();
        let mut i: usize = 0;
        while i < pool.len()
            invariant
                i <= pool@.len(),
                pool@ == self.balancer.pool(),
                self.backend_connections@.len() == pool@.len(),
            decreases pool@.len() - i,
        {
            if crate::load_balancing::string_eq_str(&pool[i], backend) {
                return Some(i);
            }
            i = i + 1;
        }
        None
    }

    /// Counts an accepted connection; returns the number now active.
    pub fn connection_opened(&mut self) -> (r: usize)
        requires
            old(self).wf(),
        ensures
            final(self).wf(),
            final(self).settings() == old(self).settings(),
            final(self).pool() == old(self).pool(),
            final(self).stats().total_connections == sat_add(old(self).stats().total_connections, 1),
            r == final(self).stats().active_connections,
    {
        self.stats.increment_connections()
    }

    /// Counts a closed connection; returns the number still active.
    pub fn connection_closed(&mut self) -> (r: usize)
        requires
            old(self).wf(),
        ensures
            final(self).wf(),
            final(self).settings() == old(self).settings(),
            final(self).pool() == old(self).pool(),
            r == final(self).stats().active_connections,
    {
        self.stats.decrement_connections()
    }

    /// The configuration in force.
    pub fn config(&self) -> (r: &Config)
        ensures
            *r == self.settings(),
    {
        &self.config
    }

    /// Puts `config` in force as `new` would, keeping the statistics.
    pub fn replace_config(&mut self, config: Config)
        ensures
            final(self).wf(),
            final(self).settings() == config,
            final(self).stats() == old(self).stats(),
            final(self).pool().map_values(|b: String| b@) == pool_of(config),
    {
        let stats = self.stats;
        let mut fresh = ProxyServer::new(config, stats.start_time);
        fresh.stats = stats;
        *self = fresh;
    }

    /// Decides what to do with one request from `client_ip` at `now_ms`
    /// (milliseconds since the epoch). Statistics pages are not counted as
    /// requests; every other request is. Requests to the pool or the static
    /// tree pass the access rules first (403, 429). A GET to the pool is
    /// answered from the cache while caching is on and an entry is fresh;
    /// otherwise it is forwarded, rewritten for the backend that the
    /// algorithm picks.
    pub fn handle_request(&mut self, req: &HttpRequest, client_ip: &str, now_ms: u64) -> (r: Action)
        requires
            old(self).wf(),
        ensures
            final(self).wf(),
            final(self).settings() == old(self).settings(),
            final(self).pool() == old(self).pool(),
            final(self).cache() == old(self).cache(),
            final(self).compressor() == old(self).compressor(),
            final(self).filter().allowed_networks() == old(self).filter().allowed_networks(),
            final(self).filter().denied_networks() == old(self).filter().denied_networks(),
            final(self).filter().limit() == old(self).filter().limit(),
            old(self).counts_window(req@, client_ip@) ==> final(self).filter().window(client_ip@) == Some(
                crate::access_control::rate_step(old(self).filter().window(client_ip@), now_ms))
                && forall|c: Seq<char>| c != client_ip@ ==> #[trigger] final(self).filter().window(c) == old(self).filter().window(c),
            !old(self).counts_window(req@, client_ip@) ==> final(self).filter().table() == old(self).filter().table(),
            r is Forward ==> final(self).algorithm() == old(self).algorithm().advanced(),
            !(r is Forward) ==> final(self).algorithm() == old(self).algorithm(),
            old(self).route_for(req@) == Route::StatusHtml || old(self).route_for(req@) == Route::StatusJson
                ==> final(self).stats() == old(self).stats(),
            !(old(self).route_for(req@) == Route::StatusHtml || old(self).route_for(req@) == Route::StatusJson)
                ==> final(self).stats() == (ServerStats {
                    total_requests: sat_add(old(self).stats().total_requests, 1),
                    ..old(self).stats()
                }),
            old(self).route_for(req@) == Route::Preflight ==> (r matches Action::Respond(resp) && resp@.status == 200),
            old(self).route_for(req@) == Route::MethodNotAllowed ==> (r matches Action::Respond(resp) && resp@.status == 405),
            old(self).route_for(req@) == Route::ConfigRead ==> r is ReadConfig,
            old(self).route_for(req@) == Route::ConfigWrite ==> r is WriteConfig,
            old(self).route_for(req@) == Route::StatusHtml ==> (r matches Action::Respond(resp) && resp@.status == 200
                && resp@.body == encode_utf8(fill_template(html_pieces(), status_fields(old(self).stats().snapshot_at(now_ms / 1000))))),
            old(self).route_for(req@) == Route::StatusJson ==> (r matches Action::Respond(resp) && resp@.status == 200
                && resp@.body == encode_utf8(fill_template(json_pieces(), status_fields(old(self).stats().snapshot_at(now_ms / 1000))))),
            (old(self).route_for(req@) == Route::Proxy || old(self).route_for(req@) == Route::StaticFile) ==> {
                let d = old(self).access_for(client_ip@, now_ms);
                &&& d == AccessDecision::Forbidden ==> (r matches Action::Respond(resp) && resp@.status == 403)
                &&& d == AccessDecision::TooManyRequests ==> (r matches Action::Respond(resp) && resp@.status == 429)
            },
            old(self).route_for(req@) == Route::Proxy && old(self).access_for(client_ip@, now_ms) == AccessDecision::Allow ==> match r {
                Action::Respond(resp) => old(self).settings().features.cache.cache_enabled == Some(true) && req@.method == "GET"@
                    && (visible(old(self).cache().entry(cache_key(req@)), now_ms) matches Some(hit)
                    && resp@ == old(self).finished(hit, header_value(req@.headers, "accept-encoding"@).unwrap_or(Seq::empty()))),
                Action::Forward { backend, request } => request@ == forwarded_spec(req@, backend@)
                    && exists|ctx: LoadBalancingContext| ctx.client_ip@ == client_ip@ && ctx.active_connections@ == old(self).gauge()
                        && old(self).algorithm().choice(old(self).pool(), ctx) < old(self).pool().len()
                        && backend == old(self).pool()[old(self).algorithm().choice(old(self).pool(), ctx) as int],
                _ => false,
            },
            old(self).route_for(req@) == Route::StaticFile && old(self).access_for(client_ip@, now_ms) == AccessDecision::Allow ==> match r {
                Action::Respond(resp) => (resp@.status == 404 && !old(self).settings().features.static_file_serving)
                    || (resp@.status == 400 && static_segments(path_of(req@.uri)) is None),
                Action::ServeStatic { segments } => old(self).settings().features.static_file_serving
                    && static_segments(path_of(req@.uri)) == Some(segments@.map_values(|s: String| s@)),
                _ => false,
            },
    {
        let path = request_path(req.uri.as_str());
        let stats_path: Option<&str> = match &self.config.features.monitoring.stats_path {
            Some(p) => Some(p.as_str()),
            None => None,
        };
        let has_backend = self.balancer.get_backends().len() > 0;
        let rt = route(req.method.as_str(), path.as_str(), stats_path, has_backend);
        let now_s = now_ms / 1000;
        match rt {
            Route::StatusHtml => {
                let page = StatusPage::new().generate_status_page(&self.stats.get_stats(now_s));
                return Action::Respond(Self::page_response(page, "text/html; charset=utf-8"));
            },
            Route::StatusJson => {
                let page = StatusPage::new().generate_json_status(&self.stats.get_stats(now_s));
                return Action::Respond(Self::page_response(page, "application/json"));
            },
            _ => {},
        }
        self.stats.increment_requests();
        match rt {
            Route::Preflight => Action::Respond(preflight_response()),
            Route::MethodNotAllowed => Action::Respond(text_response(405, "Method not allowed")),
            Route::ConfigRead => Action::ReadConfig,
            Route::ConfigWrite => Action::WriteConfig,
            _ => {
                let decision = self.filter.evaluate(
                    self.config.is_access_control_enabled(),
                    self.config.is_rate_limiting_enabled(),
                    client_ip,
                    now_ms,
                );
                match decision {
                    AccessDecision::Forbidden => {
                        return Action::Respond(text_response(403, "Access denied"));
                    },
                    AccessDecision::TooManyRequests => {
                        return Action::Respond(text_response(429, "Too Many Requests"));
                    },
                    AccessDecision::Allow => {},
                }
                if let Route::StaticFile = rt {
                    if !self.config.features.static_file_serving {
                        return Action::Respond(text_response(404, "Static file serving is disabled"));
                    }
                    return match resolve_static_path(path.as_str()) {
                        Some(segments) => Action::ServeStatic { segments },
                        None => Action::Respond(text_response(400, "Invalid path")),
                    };
                }
                let accept = Self::accept_encoding(req);
                if self.config.is_cache_enabled() && str_eq(req.method.as_str(), "GET") {
                    let key = Self::cache_key_of(req);
                    match self.cache.get(key.as_str(), now_ms) {
                        Some(hit) => {
                            return Action::Respond(self.finish(hit, accept.as_str()));
                        },
                        None => {},
                    }
                }
                let ctx = LoadBalancingContext {
                    client_ip: client_ip.to_owned(),
                    active_connections: copy_counts(&self.backend_connections),
                };
                let ghost before = *self;
                match self.balancer.select_backend(&ctx) {
                    Some(backend) => {
                        assert(ctx.client_ip@ == client_ip@ && ctx.active_connections@ == before.gauge());
                        assert(before.algorithm().choice(before.pool(), ctx) < before.pool().len()
                            && backend == before.pool()[before.algorithm().choice(before.pool(), ctx) as int]);
                        self.adjust_gauge(backend.as_str(), true);
                        let request = rewrite_for_backend(req, backend.as_str());
                        Action::Forward { backend, request }
                    },
                    None => Action::Respond(text_response(502, "No backend available")),
                }
            },
        }
    }

    /// Finishes a request forwarded to `backend`: `outcome` is its response, or
    /// `None` when forwarding failed. A failure counts an error and gives a
    /// 502 with a generic body. A response is compressed by the rules
    /// (`finished`, exactly), its bytes counted out, and, while caching is on, a 2xx
    /// answer to a GET is stored (uncompressed) under the request's key.
    pub fn complete_forward(&mut self, req: &HttpRequest, backend: &str, outcome: Option<HttpResponse>, now_ms: u64) -> (r: HttpResponse)
        requires
            old(self).wf(),
        ensures
            final(self).wf(),
            final(self).settings() == old(self).settings(),
            final(self).pool() == old(self).pool(),
            final(self).filter() == old(self).filter(),
            final(self).algorithm() == old(self).algorithm(),
            final(self).compressor() == old(self).compressor(),
            outcome is None ==> r@ == (ResponseView { status: 502, headers: Seq::empty(), body: encode_utf8("Bad Gateway"@) })
                && final(self).stats() == (ServerStats { total_errors: sat_add(old(self).stats().total_errors, 1), ..old(self).stats() })
                && final(self).cache() == old(self).cache(),
            outcome matches Some(resp) ==> r@ == old(self).finished(resp@, header_value(req@.headers, "accept-encoding"@).unwrap_or(Seq::empty()))
                && final(self).stats() == (ServerStats { bytes_out: sat_add(old(self).stats().bytes_out, r@.body.len() as u64), ..old(self).stats() }),
            outcome matches Some(resp) ==> if old(self).settings().features.cache.cache_enabled == Some(true) && req@.method == "GET"@
                && 200 <= resp@.status < 300 {
                final(self).cache().entry(cache_key(req@)) == Some(new_entry(resp@, now_ms, old(self).cache().ttl_ms()))
                    && forall|k: Seq<char>| k != cache_key(req@) ==> #[trigger] final(self).cache().entry(k) == old(self).cache().entry(k)
            } else {
                final(self).cache() == old(self).cache()
            },
    {
        self.adjust_gauge(backend, false);
        match outcome {
            None => {
                self.stats.increment_errors();
                text_response(502, "Bad Gateway")
            },
            Some(resp) => {
                if self.config.is_cache_enabled() && str_eq(req.method.as_str(), "GET") && 200 <= resp.status
                    && resp.status < 300 {
                    let key = Self::cache_key_of(req);
                    self.cache.put(key, resp.duplicate(), now_ms);
                }
                let accept = Self::accept_encoding(req);
                let out = self.finish(resp, accept.as_str());
                self.stats.add_bytes_out(out.body.len() as u64);
                out
            },
        }
    }
}

/// Forwarding fidelity: the request that goes to `backend` keeps the method,
/// body and every header but `Host`, which becomes the backend's address;
/// and a backend answer that the compression rules leave alone reaches the
/// client exactly as the backend sent it.
pub proof fn lemma_forwarding_fidelity(p: ProxyServer, req: RequestView, backend: Seq<char>, name: Seq<char>,
    answer: ResponseView, accept: Seq<char>)
    requires
        !crate::text::eq_ignore_ascii_case("host"@, name),
    ensures
        header_value(forwarded_spec(req, backend).headers, "host"@) == Some(backend),
        header_value(forwarded_spec(req, backend).headers, name) == header_value(req.headers, name),
        forwarded_spec(req, backend).method == req.method,
        forwarded_spec(req, backend).body == req.body,
        !p.compresses(answer, accept) ==> p.finished(answer, accept) == answer,
{
    reveal_strlit("host");
    assert("host"@ =~= seq!['h', 'o', 's', 't']);
    crate::compression::lemma_header_after_set(req.headers, "host"@, backend);
    crate::compression::lemma_header_set_other(req.headers, "host"@, backend, name);
}

} // verus!
