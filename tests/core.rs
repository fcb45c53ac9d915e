use cool_nginx::access_control::{parse_network, AccessDecision, IpFilter, IpNetwork, Ipv4Network, NetworkParseError};
use cool_nginx::cache::HttpCache;
use cool_nginx::compression::CompressionModule;
use cool_nginx::http::{rewrite_for_backend, HttpRequest, HttpResponse};
use cool_nginx::load_balancing::{
    Algorithm, IpHash, LeastConnections, LoadBalancer, LoadBalancingAlgorithm, LoadBalancingContext, RoundRobin,
    WeightedRoundRobin,
};

fn pool(names: &[&str]) -> LoadBalancer {
    let mut lb = LoadBalancer::new();
    for n in names {
        lb.add_backend(n.to_string());
    }
    lb
}

fn ctx(ip: &str) -> LoadBalancingContext {
    LoadBalancingContext::new(ip.to_string())
}

#[test]
fn round_robin_cycles_through_pool() {
    let mut lb = pool(&["a", "b", "c"]);
    let picks: Vec<String> = (0..7).map(|_| lb.select_backend(&ctx("1.1.1.1")).unwrap()).collect();
    assert_eq!(picks, vec!["a", "b", "c", "a", "b", "c", "a"]);
}

#[test]
fn round_robin_fair_counts() {
    let mut lb = pool(&["a", "b", "c"]);
    let mut counts = [0usize; 3];
    for _ in 0..10 {
        match lb.select_backend(&ctx("x")).unwrap().as_str() {
            "a" => counts[0] += 1,
            "b" => counts[1] += 1,
            _ => counts[2] += 1,
        }
    }
    assert_eq!(counts, [4, 3, 3]);
}

#[test]
fn empty_pool_selects_nothing() {
    let mut lb = LoadBalancer::new();
    assert_eq!(lb.select_backend(&ctx("x")), None);
    let mut rr = RoundRobin::new();
    assert_eq!(rr.select_backend(&[], &ctx("x")), None);
}

#[test]
fn weighted_round_robin_follows_weights() {
    let weights = vec![("a".to_string(), 2u32), ("b".to_string(), 1u32)];
    let mut lb = pool(&["a", "b"]).with_algorithm(Algorithm::WeightedRoundRobin(WeightedRoundRobin::new(weights)));
    let first: Vec<String> = (0..3).map(|_| lb.select_backend(&ctx("x")).unwrap()).collect();
    assert_eq!(first, vec!["a", "a", "b"]);
}

#[test]
fn weighted_pool_of_three_hundred_requests() {
    let weights = vec![("127.0.0.1:9001".to_string(), 2u32), ("127.0.0.1:9002".to_string(), 1u32)];
    let mut lb = pool(&["127.0.0.1:9001", "127.0.0.1:9002"])
        .with_algorithm(Algorithm::WeightedRoundRobin(WeightedRoundRobin::new(weights)));
    let mut a = 0;
    let mut b = 0;
    for _ in 0..300 {
        if lb.select_backend(&ctx("x")).unwrap() == "127.0.0.1:9001" {
            a += 1;
        } else {
            b += 1;
        }
    }
    assert_eq!((a, b), (200, 100));
}

#[test]
fn least_connections_picks_least_loaded() {
    let mut lc = LeastConnections::new();
    let backends = vec!["a".to_string(), "b".to_string(), "c".to_string()];
    let mut c = ctx("x");
    c.active_connections = vec![5, 2, 2];
    assert_eq!(lc.select_backend(&backends, &c), Some("b".to_string()));
    c.active_connections = vec![1];
    assert_eq!(lc.select_backend(&backends, &c), Some("b".to_string()));
    c.active_connections = vec![0];
    assert_eq!(lc.select_backend(&backends, &c), Some("a".to_string()));
}

#[test]
fn ip_hash_is_sticky() {
    let mut h = IpHash::new();
    let backends = vec!["a".to_string(), "b".to_string(), "c".to_string()];
    let first = h.select_backend(&backends, &ctx("10.1.2.3"));
    for _ in 0..5 {
        assert_eq!(h.select_backend(&backends, &ctx("10.1.2.3")), first);
    }
}

#[test]
fn remove_backend_keeps_order() {
    let mut lb = pool(&["a", "b", "a", "c"]);
    lb.remove_backend("a");
    assert_eq!(lb.get_backends().to_vec(), vec!["b".to_string(), "c".to_string()]);
}

#[test]
fn allow_list_admits_only_listed_address() {
    let mut f = IpFilter::new(1000);
    f.allow("127.0.0.1").unwrap();
    assert!(f.is_allowed("127.0.0.1"));
    assert!(!f.is_allowed("10.0.0.1"));
    assert_eq!(f.evaluate(true, false, "10.0.0.1", 0), AccessDecision::Forbidden);
    assert_eq!(f.evaluate(true, false, "127.0.0.1", 0), AccessDecision::Allow);
}

#[test]
fn deny_list_wins_with_empty_allow_list() {
    let mut f = IpFilter::new(1000);
    f.deny("10.0.0.1/32").unwrap();
    assert!(!f.is_allowed("10.0.0.1"));
    assert!(f.is_allowed("10.0.0.2"));
    assert_eq!(f.evaluate(true, true, "10.0.0.1", 0), AccessDecision::Forbidden);
}

#[test]
fn cidr_ranges_match_by_prefix() {
    let mut f = IpFilter::new(1000);
    f.allow("192.168.0.0/16").unwrap();
    assert!(f.is_allowed("192.168.200.7"));
    assert!(!f.is_allowed("192.169.0.1"));
    let mut all = IpFilter::new(1000);
    all.allow("0.0.0.0/0").unwrap();
    assert!(all.is_allowed("8.8.8.8"));
}

#[test]
fn network_texts_parse_or_fail() {
    assert_eq!(
        parse_network("10.0.0.0/8"),
        Ok(IpNetwork::V4(Ipv4Network { network: 0x0a00_0000, prefix: 8 }))
    );
    assert_eq!(parse_network("1.2.3.4/33"), Err(NetworkParseError::InvalidPrefix));
    assert_eq!(parse_network("1.2.3.4/x"), Err(NetworkParseError::InvalidPrefix));
    assert_eq!(parse_network("1.2.3.4/8/9"), Err(NetworkParseError::InvalidFormat));
    assert_eq!(parse_network("foo/8"), Err(NetworkParseError::InvalidAddress));
    assert_eq!(parse_network("1.2.3.256"), Err(NetworkParseError::InvalidAddress));
    assert_eq!(parse_network("01.2.3.4"), Err(NetworkParseError::InvalidAddress));
}

#[test]
fn malformed_client_address_is_not_filtered() {
    let mut f = IpFilter::new(1000);
    f.allow("127.0.0.1").unwrap();
    assert!(f.is_allowed("not-an-ip"));
}

#[test]
fn rate_limit_rejects_fourth_request_in_window() {
    let mut f = IpFilter::new(3);
    assert!(!f.is_rate_limited("1.2.3.4", 0));
    assert!(!f.is_rate_limited("1.2.3.4", 10_000));
    assert!(!f.is_rate_limited("1.2.3.4", 20_000));
    assert!(f.is_rate_limited("1.2.3.4", 30_000));
    assert!(!f.is_rate_limited("5.6.7.8", 30_000));
    assert!(!f.is_rate_limited("1.2.3.4", 60_001));
    assert_eq!(f.evaluate(true, true, "1.2.3.4", 60_002), AccessDecision::Allow);
}

#[test]
fn rate_limit_answers_too_many_requests() {
    let mut f = IpFilter::new(1);
    assert_eq!(f.evaluate(true, true, "9.9.9.9", 0), AccessDecision::Allow);
    assert_eq!(f.evaluate(true, true, "9.9.9.9", 1), AccessDecision::TooManyRequests);
    assert_eq!(f.evaluate(false, true, "9.9.9.9", 2), AccessDecision::Allow);
}

fn text_response(status: u16, body: &str, content_type: &str) -> HttpResponse {
    let mut r = HttpResponse::new(status, body.as_bytes().to_vec());
    r.headers.push(("Content-Type".to_string(), content_type.to_string()));
    r
}

#[test]
fn cache_entry_expires_after_ttl() {
    let mut cache = HttpCache::new(10);
    cache.put("GET /a".to_string(), text_response(200, "hello", "text/plain"), 1_000);
    assert!(cache.get("GET /a", 10_999).is_some());
    assert!(cache.get("GET /a", 11_000).is_none());
    assert!(cache.get("GET /b", 1_000).is_none());
}

#[test]
fn cache_sweep_keeps_fresh_entries() {
    let mut cache = HttpCache::new(10);
    cache.put("old".to_string(), text_response(200, "x", "text/plain"), 0);
    cache.put("new".to_string(), text_response(200, "y", "text/plain"), 5_000);
    cache.remove_expired(12_000);
    assert!(cache.get_etag("old").is_none());
    let kept = cache.get("new", 12_000).unwrap();
    assert_eq!(kept.body, b"y".to_vec());
    cache.clear();
    assert!(cache.get("new", 12_000).is_none());
}

#[test]
fn cache_etag_is_md5_of_body() {
    let mut cache = HttpCache::new(60);
    cache.put("k".to_string(), text_response(200, "hello", "text/plain"), 0);
    assert_eq!(cache.get_etag("k"), Some("5d41402abc4b2a76b9719d911017c592".to_string()));
}

#[test]
fn compression_skips_encoded_body() {
    let m = CompressionModule::new();
    let mut r = text_response(200, &"a".repeat(2000), "text/plain");
    r.headers.push(("Content-Encoding".to_string(), "gzip".to_string()));
    let out = m.compress_response(r, "gzip, deflate").unwrap();
    assert_eq!(out.body, "a".repeat(2000).into_bytes());
}

#[test]
fn compression_skips_short_body() {
    let m = CompressionModule::with_settings(6, 1024, vec!["text/plain".to_string()]);
    let body = "x".repeat(50);
    let out = m.compress_response(text_response(200, &body, "text/plain"), "gzip").unwrap();
    assert_eq!(out.body, body.into_bytes());
    assert!(out.header("content-encoding").is_none());
}

#[test]
fn compression_gzips_and_is_idempotent() {
    let m = CompressionModule::new();
    let body = "hello world ".repeat(100);
    let out = m.compress_response(text_response(200, &body, "text/plain; charset=utf-8"), "gzip").unwrap();
    assert_eq!(&out.body[..2], &[0x1f, 0x8b]);
    assert!(out.body.len() < body.len());
    assert_eq!(out.header("Content-Encoding"), Some("gzip".to_string()));
    assert_eq!(out.header("vary"), Some("Accept-Encoding".to_string()));
    assert_eq!(out.header("content-length"), Some(out.body.len().to_string()));
    let again = m.compress_response(out, "gzip").unwrap();
    assert_eq!(again.header("content-encoding"), Some("gzip".to_string()));
    let unzipped_len = again.body.len();
    assert!(unzipped_len < body.len());
}

#[test]
fn compression_needs_client_support_and_listed_type() {
    let m = CompressionModule::new();
    let body = "z".repeat(1000);
    let out = m.compress_response(text_response(200, &body, "text/plain"), "deflate").unwrap();
    assert_eq!(out.body.len(), 1000);
    let out = m.compress_response(text_response(200, &body, "image/png"), "gzip").unwrap();
    assert_eq!(out.body.len(), 1000);
}

#[test]
fn forwarded_request_targets_backend() {
    let mut req = HttpRequest::new("GET", "/echo?x=1");
    req.headers.push(("Host".to_string(), "proxy.local".to_string()));
    req.headers.push(("X-Custom".to_string(), "42".to_string()));
    let out = rewrite_for_backend(&req, "127.0.0.1:9001");
    assert_eq!(out.method, "GET");
    assert_eq!(out.uri, "http://127.0.0.1:9001/echo?x=1");
    assert_eq!(out.header("host"), Some("127.0.0.1:9001".to_string()));
    assert_eq!(out.header("x-custom"), Some("42".to_string()));
    let abs = HttpRequest::new("GET", "http://example.com/a/b");
    assert_eq!(rewrite_for_backend(&abs, "b:1").uri, "http://b:1/a/b");
}
