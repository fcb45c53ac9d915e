use cool_nginx::access_control::{parse_ip, parse_network, IpAddress, IpFilter, IpNetwork, Ipv6Network};
use cool_nginx::config::{Config, UpstreamServer};
use cool_nginx::http::{HttpRequest, HttpResponse};
use cool_nginx::monitoring::{ServerStats, StatusPage};
use cool_nginx::router::{request_path, resolve_static_path, route, Route};
use cool_nginx::server::{Action, ProxyServer};
use cool_nginx::static_files::StaticServer;

fn proxy_config() -> Config {
    let mut c = Config::default();
    c.server.backend_addr = "127.0.0.1:9001".to_string();
    c.features.access_control.access_control = Some(false);
    let up = c.upstream.as_mut().unwrap();
    up.load_balancing_algorithm = Some("weighted_round_robin".to_string());
    up.servers = Some(vec![
        UpstreamServer { address: "127.0.0.1:9001".to_string(), weight: Some(2), max_fails: None, fail_timeout: None },
        UpstreamServer { address: "127.0.0.1:9002".to_string(), weight: Some(1), max_fails: None, fail_timeout: None },
    ]);
    c
}

#[test]
fn ipv6_addresses_parse() {
    assert_eq!(parse_ip("::1"), Some(IpAddress::V6(1)));
    assert_eq!(parse_ip("::"), Some(IpAddress::V6(0)));
    assert_eq!(
        parse_ip("2001:db8::ff00:42:8329"),
        Some(IpAddress::V6(0x2001_0db8_0000_0000_0000_ff00_0042_8329))
    );
    assert_eq!(parse_ip("1:2:3:4:5:6:7:8"), Some(IpAddress::V6(0x0001_0002_0003_0004_0005_0006_0007_0008)));
    assert_eq!(parse_ip("1:2:3:4:5:6:7"), None);
    assert_eq!(parse_ip("1::2::3"), None);
    assert_eq!(parse_ip("12345::"), None);
    assert_eq!(parse_ip("10.0.0.1"), Some(IpAddress::V4(0x0a00_0001)));
}

#[test]
fn ipv6_prefix_matching_is_bitwise() {
    assert_eq!(
        parse_network("2001:db8::/32"),
        Ok(IpNetwork::V6(Ipv6Network { network: 0x2001_0db8 << 96, prefix: 32 }))
    );
    let mut f = IpFilter::new(10);
    f.allow("2001:db8::/33").unwrap();
    assert!(f.is_allowed("2001:db8:7fff::1"));
    assert!(!f.is_allowed("2001:db8:8000::1"));
    assert!(!f.is_allowed("2001:db9::1"));
    assert!(!f.is_allowed("10.0.0.1"));
}

#[test]
fn routes_follow_method_and_path() {
    assert_eq!(route("OPTIONS", "/x", None, true), Route::Preflight);
    assert_eq!(route("GET", "/nginx_status", Some("/nginx_status"), true), Route::StatusHtml);
    assert_eq!(route("GET", "/status", None, false), Route::StatusHtml);
    assert_eq!(route("GET", "/api/status", None, false), Route::StatusJson);
    assert_eq!(route("GET", "/api/config", None, false), Route::ConfigRead);
    assert_eq!(route("PUT", "/api/config", None, false), Route::ConfigWrite);
    assert_eq!(route("POST", "/api/config", None, true), Route::ConfigWrite);
    assert_eq!(route("GET", "/index.html", None, true), Route::Proxy);
    assert_eq!(route("GET", "/index.html", None, false), Route::StaticFile);
    assert_eq!(route("POST", "/form", None, true), Route::Proxy);
    assert_eq!(route("POST", "/form", None, false), Route::MethodNotAllowed);
    assert_eq!(route("DELETE", "/x", None, true), Route::MethodNotAllowed);
    assert_eq!(request_path("/a/b?x=1"), "/a/b");
    assert_eq!(request_path("http://h:1/q?z"), "/q");
}

#[test]
fn static_paths_stay_below_root() {
    assert_eq!(resolve_static_path("/a/./b//c"), Some(vec!["a".to_string(), "b".to_string(), "c".to_string()]));
    assert_eq!(resolve_static_path("/"), Some(vec![]));
    assert_eq!(resolve_static_path("/a/../etc/passwd"), None);
    assert_eq!(resolve_static_path("/./a"), None);
}

#[test]
fn proxy_forwards_with_backend_host_and_returns_backend_answer() {
    let mut p = ProxyServer::new(proxy_config(), 0);
    let mut req = HttpRequest::new("GET", "/echo");
    req.headers.push(("X-Test".to_string(), "yes".to_string()));
    match p.handle_request(&req, "127.0.0.1", 1_000) {
        Action::Forward { backend, request } => {
            assert_eq!(backend, "127.0.0.1:9001");
            assert_eq!(request.header("host"), Some("127.0.0.1:9001".to_string()));
            assert_eq!(request.header("x-test"), Some("yes".to_string()));
            let mut answer = HttpResponse::new(201, b"echo body".to_vec());
            answer.headers.push(("Content-Type".to_string(), "text/plain".to_string()));
            let out = p.complete_forward(&req, &backend, Some(answer), 1_001);
            assert_eq!(out.status, 201);
            assert_eq!(out.body, b"echo body".to_vec());
        }
        _ => panic!("expected a forward"),
    }
}

#[test]
fn proxy_spreads_three_hundred_requests_by_weight() {
    let mut p = ProxyServer::new(proxy_config(), 0);
    let req = HttpRequest::new("GET", "/");
    let (mut a, mut b) = (0, 0);
    for i in 0..300u64 {
        match p.handle_request(&req, "127.0.0.1", i) {
            Action::Forward { backend, .. } => {
                if backend == "127.0.0.1:9001" {
                    a += 1
                } else {
                    b += 1
                }
            }
            _ => panic!("expected a forward"),
        }
    }
    assert_eq!((a, b), (200, 100));
}

#[test]
fn failed_forward_gives_bad_gateway() {
    let mut p = ProxyServer::new(proxy_config(), 0);
    let req = HttpRequest::new("GET", "/");
    let out = p.complete_forward(&req, "127.0.0.1:9001", None, 0);
    assert_eq!(out.status, 502);
    assert_eq!(out.body, b"Bad Gateway".to_vec());
}

#[test]
fn proxy_applies_access_rules_and_preflight() {
    let mut c = proxy_config();
    c.features.access_control.access_control = Some(true);
    c.features.access_control.allow_ips = Some(vec!["127.0.0.1".to_string()]);
    c.features.access_control.rate_limiting = Some(false);
    let mut p = ProxyServer::new(c, 0);
    let req = HttpRequest::new("GET", "/");
    match p.handle_request(&req, "10.0.0.1", 0) {
        Action::Respond(r) => assert_eq!(r.status, 403),
        _ => panic!("expected 403"),
    }
    let pre = HttpRequest::new("OPTIONS", "/anything");
    match p.handle_request(&pre, "10.0.0.1", 0) {
        Action::Respond(r) => {
            assert_eq!(r.status, 200);
            assert_eq!(r.header("access-control-allow-origin"), Some("*".to_string()));
        }
        _ => panic!("expected preflight"),
    }
}

#[test]
fn proxy_serves_cached_answer() {
    let mut c = proxy_config();
    c.features.cache.cache_enabled = Some(true);
    let mut p = ProxyServer::new(c, 0);
    let req = HttpRequest::new("GET", "/cached");
    let first = p.handle_request(&req, "127.0.0.1", 0);
    assert!(matches!(first, Action::Forward { .. }));
    p.complete_forward(&req, "127.0.0.1:9001", Some(HttpResponse::new(200, b"fresh".to_vec())), 0);
    match p.handle_request(&req, "127.0.0.1", 1_000) {
        Action::Respond(r) => assert_eq!(r.body, b"fresh".to_vec()),
        _ => panic!("expected a cache hit"),
    }
    assert!(matches!(p.handle_request(&req, "127.0.0.1", 3_600_000), Action::Forward { .. }));
}

#[test]
fn static_mode_resolves_paths() {
    let mut c = Config::default();
    c.upstream = None;
    c.features.access_control.access_control = Some(false);
    let mut p = ProxyServer::new(c, 0);
    match p.handle_request(&HttpRequest::new("GET", "/docs/a.txt"), "127.0.0.1", 0) {
        Action::ServeStatic { segments } => assert_eq!(segments, vec!["docs".to_string(), "a.txt".to_string()]),
        _ => panic!("expected a static file"),
    }
    match p.handle_request(&HttpRequest::new("GET", "/../x"), "127.0.0.1", 0) {
        Action::Respond(r) => assert_eq!(r.status, 400),
        _ => panic!("expected 400"),
    }
    match p.handle_request(&HttpRequest::new("DELETE", "/x"), "127.0.0.1", 0) {
        Action::Respond(r) => assert_eq!(r.status, 405),
        _ => panic!("expected 405"),
    }
}

#[test]
fn status_json_shows_counters() {
    let mut stats = ServerStats::new(100);
    stats.increment_requests();
    stats.increment_requests();
    stats.increment_errors();
    stats.increment_connections();
    let snap = stats.get_stats(104);
    assert_eq!(snap.uptime, 4);
    assert_eq!(snap.requests_per_second_hundredths(), 50);
    assert_eq!(snap.error_rate_hundredths(), 5000);
    let json = StatusPage::new().generate_json_status(&snap);
    assert!(json.contains("\"total_requests\": 2"));
    assert!(json.contains("\"requests_per_second\": 0.50"));
    assert!(json.contains("\"error_rate\": 50.00"));
    assert!(json.contains("\"active_connections\": 1"));
    let html = StatusPage::new().generate_status_page(&snap);
    assert!(html.starts_with("<!DOCTYPE html>"));
    assert!(html.contains("50.00%"));
}

#[test]
fn stats_gauge_never_goes_negative() {
    let mut stats = ServerStats::new(0);
    assert_eq!(stats.decrement_connections(), 0);
    assert_eq!(stats.increment_connections(), 1);
    assert_eq!(stats.decrement_connections(), 0);
    assert_eq!(stats.total_connections, 1);
    assert_eq!(stats.get_stats(0).uptime, 0);
}

#[test]
fn static_file_response_and_listing() {
    let mut c = Config::default();
    c.features.gzip.gzip_min_length = Some(10);
    let s = StaticServer::new("./public".to_string(), c);
    let mut req = HttpRequest::new("GET", "/a.txt");
    req.headers.push(("Accept-Encoding".to_string(), "gzip".to_string()));
    let body = "static text ".repeat(20).into_bytes();
    let r = s.file_response(&req, "a.txt", body.clone(), 784111777);
    assert_eq!(r.status, 200);
    assert_eq!(r.header("content-type"), Some("text/plain".to_string()));
    assert_eq!(r.header("content-encoding"), Some("gzip".to_string()));
    assert_eq!(r.header("last-modified"), Some("Sun, 06 Nov 1994 08:49:37 GMT".to_string()));
    let plain = s.file_response(&HttpRequest::new("GET", "/a.txt"), "a.txt", body.clone(), 0);
    assert_eq!(plain.body, body);
    let mut cond = HttpRequest::new("GET", "/a.txt");
    cond.headers.push(("If-Modified-Since".to_string(), "Sun, 06 Nov 1994 08:49:37 GMT".to_string()));
    assert_eq!(s.file_response(&cond, "a.txt", body.clone(), 784111777).status, 304);
    assert_eq!(s.file_response(&cond, "a.txt", body, 784111778).status, 200);
    let entries = vec![("b".to_string(), true), (".hidden".to_string(), false), ("a.txt".to_string(), false)];
    let page = String::from_utf8(s.generate_directory_listing("/docs", &entries).body).unwrap();
    assert!(page.contains("<li><a href=\"../\">../</a></li>"));
    assert!(page.contains("<li><a href=\"b/\">b/</a></li>"));
    assert!(page.contains("<li><a href=\"a.txt\">a.txt</a></li>"));
    assert!(!page.contains("hidden"));
    let root = String::from_utf8(s.generate_directory_listing("/", &vec![]).body).unwrap();
    assert!(!root.contains("../"));
}

#[test]
fn default_config_values() {
    let c = Config::default();
    assert_eq!(c.server.listen_addr, "127.0.0.1:80");
    assert_eq!(c.get_gzip_comp_level(), 6);
    assert_eq!(c.get_max_requests_per_minute(), 1000);
    assert!(c.is_access_control_enabled());
    assert!(!c.is_cache_enabled());
    assert_eq!(c.get_stats_path(), Some(&"/nginx_status".to_string()));
    assert_eq!(c.get_upstream_servers().unwrap().len(), 2);
    assert_eq!(c.get_load_balancing_algorithm(), Some(&"round_robin".to_string()));
}

#[test]
fn least_connections_follows_open_requests() {
    let mut c = proxy_config();
    c.upstream.as_mut().unwrap().load_balancing_algorithm = Some("least_connections".to_string());
    let mut p = ProxyServer::new(c, 0);
    let req = HttpRequest::new("GET", "/");
    let pick = |a: Action| match a {
        Action::Forward { backend, .. } => backend,
        _ => panic!("expected a forward"),
    };
    assert_eq!(pick(p.handle_request(&req, "1.1.1.1", 0)), "127.0.0.1:9001");
    assert_eq!(pick(p.handle_request(&req, "1.1.1.1", 0)), "127.0.0.1:9002");
    p.complete_forward(&req, "127.0.0.1:9001", None, 0);
    assert_eq!(pick(p.handle_request(&req, "1.1.1.1", 0)), "127.0.0.1:9001");
}

#[test]
fn cache_lifetime_comes_from_configuration() {
    assert_eq!(cool_nginx::server::parse_duration_secs("60m"), Some(3600));
    assert_eq!(cool_nginx::server::parse_duration_secs("2h"), Some(7200));
    assert_eq!(cool_nginx::server::parse_duration_secs("45"), Some(45));
    assert_eq!(cool_nginx::server::parse_duration_secs("m"), None);
    let mut c = proxy_config();
    c.features.cache.cache_enabled = Some(true);
    c.features.cache.cache_inactive = Some("10s".to_string());
    let mut p = ProxyServer::new(c, 0);
    let req = HttpRequest::new("GET", "/short");
    assert!(matches!(p.handle_request(&req, "127.0.0.1", 0), Action::Forward { .. }));
    p.complete_forward(&req, "127.0.0.1:9001", Some(HttpResponse::new(200, b"x".to_vec())), 0);
    assert!(matches!(p.handle_request(&req, "127.0.0.1", 9_999), Action::Respond(_)));
    assert!(matches!(p.handle_request(&req, "127.0.0.1", 10_000), Action::Forward { .. }));
}

#[test]
fn client_address_prefers_forwarded_header() {
    let mut req = HttpRequest::new("GET", "/");
    assert_eq!(cool_nginx::server::client_address(&req, "9.9.9.9"), "9.9.9.9");
    req.headers.push(("X-Real-IP".to_string(), " 8.8.8.8 ".to_string()));
    assert_eq!(cool_nginx::server::client_address(&req, "9.9.9.9"), "8.8.8.8");
    req.headers.push(("X-Forwarded-For".to_string(), "1.2.3.4, 10.0.0.1".to_string()));
    assert_eq!(cool_nginx::server::client_address(&req, "9.9.9.9"), "1.2.3.4");
}

#[test]
fn proxy_compresses_backend_answer_when_rules_apply() {
    let mut c = proxy_config();
    c.features.gzip.gzip_min_length = Some(10);
    let mut p = ProxyServer::new(c, 0);
    let mut req = HttpRequest::new("GET", "/big");
    req.headers.push(("Accept-Encoding".to_string(), "gzip".to_string()));
    let mut answer = HttpResponse::new(200, "compress me ".repeat(50).into_bytes());
    answer.headers.push(("Content-Type".to_string(), "application/json".to_string()));
    let out = p.complete_forward(&req, "127.0.0.1:9001", Some(answer), 0);
    assert_eq!(out.header("content-encoding"), Some("gzip".to_string()));
    assert_eq!(&out.body[..2], &[0x1f, 0x8b]);
}

#[test]
fn pipeline_counts_rate_window_and_rotates() {
    let mut c = proxy_config();
    c.upstream.as_mut().unwrap().load_balancing_algorithm = Some("round_robin".to_string());
    c.features.access_control.access_control = Some(true);
    c.features.access_control.allow_ips = Some(vec![]);
    c.features.access_control.rate_limiting = Some(true);
    c.features.access_control.max_requests_per_minute = Some(2);
    let mut p = ProxyServer::new(c, 0);
    let req = HttpRequest::new("GET", "/");
    let pick = |a: Action| match a {
        Action::Forward { backend, .. } => backend,
        Action::Respond(r) => format!("status {}", r.status),
        _ => panic!("unexpected action"),
    };
    assert_eq!(pick(p.handle_request(&req, "1.1.1.1", 0)), "127.0.0.1:9001");
    assert_eq!(pick(p.handle_request(&req, "1.1.1.1", 1)), "127.0.0.1:9002");
    assert_eq!(pick(p.handle_request(&req, "1.1.1.1", 2)), "status 429");
    assert_eq!(pick(p.handle_request(&req, "2.2.2.2", 3)), "127.0.0.1:9001");
    assert_eq!(pick(p.handle_request(&req, "1.1.1.1", 60_001)), "127.0.0.1:9002");
}
