//! The configuration record: server, upstream pool and feature switches,
//! with the built-in default and the getters that fill in unset values.

use vstd::prelude::*;
use vstd::string::StringExecFns;
use crate::text::{has_prefix, starts_with};

verus! {

pub struct ServerConfig {
    pub listen_addr: String,
    pub backend_addr: String,
    pub static_root: String,
    pub access_log: Option<String>,
    pub error_log: Option<String>,
    pub log_level: Option<String>,
    pub ssl_cert_path: Option<String>,
    pub ssl_key_path: Option<String>,
    pub ssl_enabled: Option<bool>,
}

pub struct UpstreamServer {
    pub address: String,
    pub weight: Option<u32>,
    pub max_fails: Option<u32>,
    pub fail_timeout: Option<String>,
}

pub struct UpstreamConfig {
    pub load_balancing_algorithm: Option<String>,
    pub servers: Option<Vec<UpstreamServer>>,
}

pub struct CacheConfig {
    pub cache_enabled: Option<bool>,
    pub cache_path: Option<String>,
    pub cache_max_size: Option<String>,
    pub cache_inactive: Option<String>,
}

pub struct GzipConfig {
    pub gzip_compression: Option<bool>,
    pub gzip_comp_level: Option<u32>,
    pub gzip_min_length: Option<u32>,
    pub gzip_types: Option<Vec<String>>,
}

pub struct AccessControlConfig {
    pub access_control: Option<bool>,
    pub allow_ips: Option<Vec<String>>,
    pub deny_ips: Option<Vec<String>>,
    pub rate_limiting: Option<bool>,
    pub max_requests_per_minute: Option<u32>,
}

pub struct PerformanceConfig {
    pub worker_processes: Option<u32>,
    pub worker_connections: Option<u32>,
}

pub struct MonitoringConfig {
    pub monitoring_enabled: Option<bool>,
    pub stats_path: Option<String>,
}

pub struct FeaturesConfig {
    pub static_file_serving: bool,
    pub reverse_proxy: bool,
    pub fastcgi_support: bool,
    pub load_balancing: bool,
    pub cache: CacheConfig,
    pub gzip: GzipConfig,
    pub virtual_hosts: bool,
    pub access_control: AccessControlConfig,
    pub ssl_tls: bool,
    pub websocket_support: bool,
    pub performance: PerformanceConfig,
    pub monitoring: MonitoringConfig,
}

pub struct Config {
    pub server: ServerConfig,
    pub upstream: Option<UpstreamConfig>,
    pub features: FeaturesConfig,
}

/// The text of an optional string.
pub open spec fn opt_text(s: Option<String>) -> Option<Seq<char>> {
    match s {
        Some(t) => Some(t@),
        None => None,
    }
}

/// The texts of an optional list of strings.
pub open spec fn opt_texts(v: Option<Vec<String>>) -> Option<Seq<Seq<char>>> {
    match v {
        Some(l) => Some(l@.map_values(|t: String| t@)),
        None => None,
    }
}

fn text(s: &str) -> (r: String)
    ensures
        r@ == s@,
{
    s.to_owned()
}

fn some_text(s: &str) -> (r: Option<String>)
    ensures
        opt_text(r) == Some(s@),
{
    Some(s.to_owned())
}

impl Config {
    /// The upstream pool entries as (address, weight) with unset weights as 1.
    pub open spec fn upstream_servers(&self) -> Option<Seq<UpstreamServer>> {
        match self.upstream {
            Some(u) => match u.servers {
                Some(s) => Some(s@),
                None => None,
            },
            None => None,
        }
    }

    /// The built-in configuration: listen on 127.0.0.1:80, no single backend,
    /// static files from ./public, round-robin over 127.0.0.1:8080 and
    /// 127.0.0.1:8081 (weight 1, 3 failures, 10 s), cache off, gzip on at
    /// level 6 above 1024 bytes, access control on with 127.0.0.1 and
    /// 192.168.0.0/16 allowed and 1000 requests a minute, monitoring on at
    /// /nginx_status.
    pub fn default() -> (r: Self)
        ensures
            r.server.listen_addr@ == "127.0.0.1:80"@,
            r.server.backend_addr@.len() == 0,
            r.server.static_root@ == "./public"@,
            opt_text(r.server.access_log) == Some("./logs/access.log"@),
            opt_text(r.server.error_log) == Some("./logs/error.log"@),
            opt_text(r.server.log_level) == Some("info"@),
            opt_text(r.server.ssl_cert_path) == Some("./certs/server.crt"@),
            opt_text(r.server.ssl_key_path) == Some("./certs/server.key"@),
            r.server.ssl_enabled == Some(false),
            r.upstream matches Some(u) && opt_text(u.load_balancing_algorithm) == Some("round_robin"@),
            r.upstream_servers() matches Some(s) && s.len() == 2
                && s[0].address@ == "127.0.0.1:8080"@ && s[1].address@ == "127.0.0.1:8081"@
                && s[0].weight == Some(1u32) && s[1].weight == Some(1u32)
                && s[0].max_fails == Some(3u32) && s[1].max_fails == Some(3u32)
                && opt_text(s[0].fail_timeout) == Some("10s"@) && opt_text(s[1].fail_timeout) == Some("10s"@),
            r.features.static_file_serving,
            r.features.reverse_proxy,
            !r.features.fastcgi_support,
            !r.features.load_balancing,
            r.features.cache.cache_enabled == Some(false),
            opt_text(r.features.cache.cache_path) == Some("./cache"@),
            opt_text(r.features.cache.cache_max_size) == Some("100M"@),
            opt_text(r.features.cache.cache_inactive) == Some("60m"@),
            r.features.gzip.gzip_compression == Some(true),
            r.features.gzip.gzip_comp_level == Some(6u32),
            r.features.gzip.gzip_min_length == Some(1024u32),
            opt_texts(r.features.gzip.gzip_types) == Some(seq!["text/plain"@, "text/css"@, "application/json"@,
                "application/javascript"@, "text/xml"@, "application/xml"@]),
            !r.features.virtual_hosts,
            r.features.access_control.access_control == Some(true),
            opt_texts(r.features.access_control.allow_ips) == Some(seq!["127.0.0.1"@, "192.168.0.0/16"@]),
            opt_texts(r.features.access_control.deny_ips) == Some(Seq::<Seq<char>>::empty()),
            r.features.access_control.rate_limiting == Some(true),
            r.features.access_control.max_requests_per_minute == Some(1000u32),
            !r.features.ssl_tls,
            r.features.websocket_support,
            r.features.performance.worker_processes == Some(4u32),
            r.features.performance.worker_connections == Some(1024u32),
            r.features.monitoring.monitoring_enabled == Some(true),
            opt_text(r.features.monitoring.stats_path) == Some("/nginx_status"@),
    {
        let mut servers: Vec<UpstreamServer> = Vec::new();
        servers.push(UpstreamServer {
            address: text("127.0.0.1:8080"),
            weight: Some(1),
            max_fails: Some(3),
            fail_timeout: some_text("10s"),
        });
        servers.push(UpstreamServer {
            address: text("127.0.0.1:8081"),
            weight: Some(1),
            max_fails: Some(3),
            fail_timeout: some_text("10s"),
        });
        let mut gzip_types: Vec<String> = Vec::new();
        gzip_types.push(text("text/plain"));
        gzip_types.push(text("text/css"));
        gzip_types.push(text("application/json"));
        gzip_types.push(text("application/javascript"));
        gzip_types.push(text("text/xml"));
        gzip_types.push(text("application/xml"));
        let mut allow_ips: Vec<String> = Vec::new();
        allow_ips.push(text("127.0.0.1"));
        allow_ips.push(text("192.168.0.0/16"));
        let deny_ips: Vec<String> = Vec::new();
        proof {
            reveal_strlit("");
        }
        let r = Config {
            server: ServerConfig {
                listen_addr: text("127.0.0.1:80"),
                backend_addr: text(""),
                static_root: text("./public"),
                access_log: some_text("./logs/access.log"),
                error_log: some_text("./logs/error.log"),
                log_level: some_text("info"),
                ssl_cert_path: some_text("./certs/server.crt"),
                ssl_key_path: some_text("./certs/server.key"),
                ssl_enabled: Some(false),
            },
            upstream: Some(UpstreamConfig {
                load_balancing_algorithm: some_text("round_robin"),
                servers: Some(servers),
            }),
            features: FeaturesConfig {
                static_file_serving: true,
                reverse_proxy: true,
                fastcgi_support: false,
                load_balancing: false,
                cache: CacheConfig {
                    cache_enabled: Some(false),
                    cache_path: some_text("./cache"),
                    cache_max_size: some_text("100M"),
                    cache_inactive: some_text("60m"),
                },
                gzip: GzipConfig {
                    gzip_compression: Some(true),
                    gzip_comp_level: Some(6),
                    gzip_min_length: Some(1024),
                    gzip_types: Some(gzip_types),
                },
                virtual_hosts: false,
                access_control: AccessControlConfig {
                    access_control: Some(true),
                    allow_ips: Some(allow_ips),
                    deny_ips: Some(deny_ips),
                    rate_limiting: Some(true),
                    max_requests_per_minute: Some(1000),
                },
                ssl_tls: false,
                websocket_support: true,
                performance: PerformanceConfig { worker_processes: Some(4), worker_connections: Some(1024) },
                monitoring: MonitoringConfig {
                    monitoring_enabled: Some(true),
                    stats_path: some_text("/nginx_status"),
                },
            },
        };
        assert(opt_texts(r.features.gzip.gzip_types) =~= Some(seq!["text/plain"@, "text/css"@, "application/json"@,
            "application/javascript"@, "text/xml"@, "application/xml"@]));
        assert(opt_texts(r.features.access_control.allow_ips) =~= Some(seq!["127.0.0.1"@, "192.168.0.0/16"@]));
        assert(opt_texts(r.features.access_control.deny_ips) =~= Some(Seq::<Seq<char>>::empty()));
        r
    }

    pub fn get_access_log_path(&self) -> (r: Option<&String>)
        ensures
            r == match self.server.access_log {
                Some(s) => Some(&s),
                None => None,
            },
    {
        self.server.access_log.as_ref()
    }

    pub fn get_error_log_path(&self) -> (r: Option<&String>)
        ensures
            r == match self.server.error_log {
                Some(s) => Some(&s),
                None => None,
            },
    {
        self.server.error_log.as_ref()
    }

    pub fn get_log_level(&self) -> (r: Option<&String>)
        ensures
            r == match self.server.log_level {
                Some(s) => Some(&s),
                None => None,
            },
    {
        self.server.log_level.as_ref()
    }

    /// Caching is on only where the record says so.
    pub fn is_cache_enabled(&self) -> (r: bool)
        ensures
            r == (self.features.cache.cache_enabled == Some(true)),
    {
        self.features.cache.cache_enabled.unwrap_or(false)
    }

    pub fn get_cache_path(&self) -> (r: Option<&String>)
        ensures
            r == match self.features.cache.cache_path {
                Some(s) => Some(&s),
                None => None,
            },
    {
        self.features.cache.cache_path.as_ref()
    }

    pub fn is_gzip_enabled(&self) -> (r: bool)
        ensures
            r == (self.features.gzip.gzip_compression == Some(true)),
    {
        self.features.gzip.gzip_compression.unwrap_or(false)
    }

    /// The gzip level; 6 when unset.
    pub fn get_gzip_comp_level(&self) -> (r: u32)
        ensures
            r == match self.features.gzip.gzip_comp_level {
                Some(l) => l,
                None => 6,
            },
    {
        self.features.gzip.gzip_comp_level.unwrap_or(6)
    }

    pub fn is_access_control_enabled(&self) -> (r: bool)
        ensures
            r == (self.features.access_control.access_control == Some(true)),
    {
        self.features.access_control.access_control.unwrap_or(false)
    }

    pub fn is_rate_limiting_enabled(&self) -> (r: bool)
        ensures
            r == (self.features.access_control.rate_limiting == Some(true)),
    {
        self.features.access_control.rate_limiting.unwrap_or(false)
    }

    /// The per-minute budget of one client; 1000 when unset.
    pub fn get_max_requests_per_minute(&self) -> (r: u32)
        ensures
            r == match self.features.access_control.max_requests_per_minute {
                Some(m) => m,
                None => 1000,
            },
    {
        self.features.access_control.max_requests_per_minute.unwrap_or(1000)
    }

    pub fn is_monitoring_enabled(&self) -> (r: bool)
        ensures
            r == (self.features.monitoring.monitoring_enabled == Some(true)),
    {
        self.features.monitoring.monitoring_enabled.unwrap_or(false)
    }

    pub fn get_stats_path(&self) -> (r: Option<&String>)
        ensures
            r == match self.features.monitoring.stats_path {
                Some(s) => Some(&s),
                None => None,
            },
    {
        self.features.monitoring.stats_path.as_ref()
    }

    pub fn get_upstream_servers(&self) -> (r: Option<&Vec<UpstreamServer>>)
        ensures
            r == match self.upstream {
                Some(u) => match u.servers {
                    Some(s) => Some(&s),
                    None => None,
                },
                None => None,
            },
    {
        match &self.upstream {
            Some(u) => u.servers.as_ref(),
            None => None,
        }
    }

    pub fn get_load_balancing_algorithm(&self) -> (r: Option<&String>)
        ensures
            r == match self.upstream {
                Some(u) => match u.load_balancing_algorithm {
                    Some(a) => Some(&a),
                    None => None,
                },
                None => None,
            },
    {
        match &self.upstream {
            Some(u) => u.load_balancing_algorithm.as_ref(),
            None => None,
        }
    }
}

/// `s` with every occurrence of `pat` (left to right, not overlapping)
/// replaced by `rep`; an empty `pat` changes nothing.
pub open spec fn replace_all(s: Seq<char>, pat: Seq<char>, rep: Seq<char>) -> Seq<char>
    decreases s.len(),
{
    if s.len() == 0 || pat.len() == 0 {
        s
    } else if has_prefix(s, pat) {
        rep + replace_all(s.skip(pat.len() as int), pat, rep)
    } else {
        seq![s[0]] + replace_all(s.skip(1), pat, rep)
    }
}

pub fn replace_text(s: &str, pat: &str, rep: &str) -> (r: String)
    ensures
        r@ == replace_all(s@, pat@, rep@),
{
    let n = s.unicode_len();
    let m = pat.unicode_len();
    if m == 0 {
        return s.to_owned();
    }
    let mut out = String::new();
    let mut i: usize = 0;
    assert(s@.skip(0) =~= s@);
    while i < n
        invariant
            n == s@.len(),
            m == pat@.len(),
            m > 0,
            i <= n,
            out@ + replace_all(s@.skip(i as int), pat@, rep@) == replace_all(s@, pat@, rep@),
        decreases n - i,
    {
        let rest = s.substring_char(i, n);
        assert(rest@ == s@.skip(i as int));
        if starts_with(rest, pat) {
            out.append(rep);
            assert(s@.skip(i as int).skip(m as int) =~= s@.skip((i + m) as int));
            i = i + m;
        } else {
            out.append(s.substring_char(i, i + 1));
            assert(s@.skip(i as int).skip(1) =~= s@.skip(i as int + 1));
            assert(s@.subrange(i as int, i as int + 1) =~= seq![s@.skip(i as int)[0]]);
            i = i + 1;
        }
    }
    assert(s@.skip(i as int).len() == 0);
    out
}

/// The placeholder of a variable: `${name}`.
pub open spec fn placeholder(name: Seq<char>) -> Seq<char> {
    seq!['$', '{'] + name + seq!['}']
}

/// `content` with the placeholder of each variable replaced by its value,
/// the variables taken in order.
pub open spec fn substitute(content: Seq<char>, vars: Seq<(Seq<char>, Seq<char>)>) -> Seq<char>
    decreases vars.len(),
{
    if vars.len() == 0 {
        content
    } else {
        replace_all(substitute(content, vars.drop_last()), placeholder(vars.last().0), vars.last().1)
    }
}

/// The configuration in force, and named variables for configuration text.
pub struct ConfigManager {
    config: Config,
    variables: Vec<(String, String)>,
}

impl ConfigManager {
    pub closed spec fn current(&self) -> Config {
        self.config
    }

    /// The variables in the order they were first set.
    pub closed spec fn vars(&self) -> Seq<(Seq<char>, Seq<char>)> {
        self.variables@.map_values(|v: (String, String)| (v.0@, v.1@))
    }

    pub fn new(config: Config) -> (r: Self)
        ensures
            r.current() == config,
            r.vars().len() == 0,
    {
        ConfigManager { config, variables: Vec::new() }
    }

    pub fn get_config(&self) -> (r: &Config)
        ensures
            *r == self.current(),
    {
        &self.config
    }

    /// Replaces the configuration wholesale.
    pub fn update_config(&mut self, new_config: Config)
        ensures
            final(self).current() == new_config,
            final(self).vars() == old(self).vars(),
    {
        self.config = new_config;
    }

    fn find(&self, name: &str) -> (r: Option<usize>)
        ensures
            match r {
                Some(i) => i < self.vars().len() && self.vars()[i as int].0 == name@,
                None => forall|j: int| 0 <= j < self.vars().len() ==> (#[trigger] self.vars()[j]).0 != name@,
            },
    {
        let mut i: usize = 0;
        while i < self.variables.len()
            invariant
                i <= self.variables@.len(),
                forall|j: int| 0 <= j < i ==> (#[trigger] self.vars()[j]).0 != name@,
            decreases self.variables@.len() - i,
        {
            if crate::load_balancing::string_eq_str(&self.variables[i].0, name) {
                return Some(i);
            }
            i = i + 1;
        }
        None
    }

    /// Sets a variable: a new one goes last; a known one keeps its place
    /// and takes the new value.
    pub fn set_variable(&mut self, name: String, value: String)
        ensures
            final(self).current() == old(self).current(),
            (exists|i: int| 0 <= i < old(self).vars().len() && (#[trigger] old(self).vars()[i]).0 == name@) ==> exists|i: int|
                0 <= i < old(self).vars().len() && (#[trigger] old(self).vars()[i]).0 == name@
                && final(self).vars() == old(self).vars().update(i, (name@, value@)),
            (forall|i: int| 0 <= i < old(self).vars().len() ==> (#[trigger] old(self).vars()[i]).0 != name@)
                ==> final(self).vars() == old(self).vars().push((name@, value@)),
    {
        let ghost entry = (name@, value@);
        match self.find(name.as_str()) {
            Some(i) => {
                self.variables.set(i, (name, value));
                assert(self.vars() =~= old(self).vars().update(i as int, entry));
            },
            None => {
                self.variables.push((name, value));
                assert(self.vars() =~= old(self).vars().push(entry));
            },
        }
    }

    pub fn get_variable(&self, name: &str) -> (r: Option<String>)
        ensures
            match r {
                Some(v) => exists|i: int| 0 <= i < self.vars().len() && (#[trigger] self.vars()[i]).0 == name@
                    && self.vars()[i].1 == v@,
                None => forall|j: int| 0 <= j < self.vars().len() ==> (#[trigger] self.vars()[j]).0 != name@,
            },
    {
        match self.find(name) {
            Some(i) => Some(self.variables[i].1.clone()),
            None => None,
        }
    }

    /// The text with every `${name}` replaced by the variable's value.
    pub fn parse_with_variables(&self, content: &str) -> (r: String)
        ensures
            r@ == substitute(content@, self.vars()),
    {
        let ghost vs = self.vars();
        let mut out = content.to_owned();
        let mut i: usize = 0;
        while i < self.variables.len()
            invariant
                vs == self.vars(),
                i <= vs.len(),
                out@ == substitute(content@, vs.take(i as int)),
            decreases vs.len() - i,
        {
            assert(vs.take(i as int + 1).drop_last() =~= vs.take(i as int));
            let mut pat = "${".to_owned();
            pat.append(self.variables[i].0.as_str());
            pat.append("}");
            proof {
                reveal_strlit("${");
                reveal_strlit("}");
            }
            assert(pat@ =~= placeholder(vs[i as int].0));
            out = replace_text(out.as_str(), pat.as_str(), self.variables[i].1.as_str());
            i = i + 1;
        }
        assert(vs.take(vs.len() as int) =~= vs);
        out
    }
}

} // verus!
