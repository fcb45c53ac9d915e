use cool_nginx::ab_testing::{ABTesting, Variant};
use cool_nginx::basic_auth::BasicAuth;
use cool_nginx::fastcgi::FastCgiLoadBalancer;
use cool_nginx::geoip::GeoIP;
use cool_nginx::access_control::IpAddress;
use cool_nginx::http::HttpRequest;
use cool_nginx::logging::LogLevel;
use cool_nginx::mail::{ImapProxy, Pop3Proxy, SmtpProxy};
use cool_nginx::fastcgi::FastCgiClient;
use cool_nginx::error_pages::ErrorPages;
use cool_nginx::modules::ImageProcessor;
use cool_nginx::performance::{MemoryPool, PerformanceMonitor};
use cool_nginx::platform::{PathUtils, PlatformInfo};
use cool_nginx::process::{ProcessManager, WorkerProcess, WorkerStatus};
use cool_nginx::config::{replace_text, Config, ConfigManager};
use cool_nginx::tls::{choose_keys, first_key, load_keys, TlsConfig, TlsError};
use cool_nginx::websocket::WebSocketProxy;
use cool_nginx::text::{format_decimal, parse_decimal};

#[test]
fn fastcgi_backends_rotate() {
    let mut lb = FastCgiLoadBalancer::new(vec!["a".to_string(), "b".to_string()]);
    assert_eq!(lb.get_next_backend(), Some("a".to_string()));
    assert_eq!(lb.get_next_backend(), Some("b".to_string()));
    assert_eq!(lb.get_next_backend(), Some("a".to_string()));
    assert_eq!(FastCgiLoadBalancer::new(vec![]).get_next_backend(), None);
}

fn variant(name: &str, weight: u32, backend: &str) -> Variant {
    Variant { name: name.to_string(), weight, backend: backend.to_string() }
}

#[test]
fn ab_testing_splits_by_weight() {
    let mut ab = ABTesting::new();
    ab.add_experiment("exp".to_string(), vec![variant("A", 1, "a:1"), variant("B", 3, "b:1")]);
    // "c" hashes to 99; with counts 1..4 the positions are 0, 1, 2, 3 of [A, B, B, B].
    let picks: Vec<String> = (0..4).map(|_| ab.select_backend("exp", "c").unwrap()).collect();
    assert_eq!(picks, vec!["a:1", "b:1", "b:1", "b:1"]);
    assert_eq!(ab.select_backend("missing", "c"), None);
    let stats = ab.get_experiment_stats("exp").unwrap();
    assert_eq!(stats.total_requests, 4);
    assert_eq!(stats.variants.len(), 2);
    assert_eq!(stats.variants[1].weight, 3);
    ab.add_experiment("zero".to_string(), vec![variant("Z", 0, "z:1")]);
    assert_eq!(ab.select_backend("zero", "c"), None);
}

#[test]
fn basic_auth_checks_credentials() {
    let mut auth = BasicAuth::new();
    auth.add_user("alice".to_string(), "secret".to_string());
    // "alice:secret" in base64
    assert!(auth.authenticate(Some("Basic YWxpY2U6c2VjcmV0")));
    // "alice:wrong"
    assert!(!auth.authenticate(Some("Basic YWxpY2U6d3Jvbmc=")));
    assert!(!auth.authenticate(Some("Bearer YWxpY2U6c2VjcmV0")));
    assert!(!auth.authenticate(Some("Basic !!!")));
    assert!(!auth.authenticate(None));
    auth.add_user("alice".to_string(), "wrong".to_string());
    assert!(auth.authenticate(Some("Basic YWxpY2U6d3Jvbmc=")));
    let challenge = auth.create_challenge_response();
    assert_eq!(challenge.status, 401);
    assert_eq!(challenge.header("WWW-Authenticate"), Some("Basic realm=\"Restricted Area\"".to_string()));
}

#[test]
fn pop3_and_smtp_replies() {
    assert_eq!(Pop3Proxy::reply("stat"), ("+OK 0 0\r\n".to_string(), false));
    assert_eq!(Pop3Proxy::reply("QUIT"), ("+OK Proxy closing connection\r\n".to_string(), true));
    assert_eq!(Pop3Proxy::reply("bogus"), ("-ERR Command not understood\r\n".to_string(), false));
    assert_eq!(SmtpProxy::reply("helo x"), ("250 smtp.proxy.local\r\n".to_string(), false, false));
    assert_eq!(SmtpProxy::reply("DATA").2, true);
    assert_eq!(SmtpProxy::reply("quit").1, true);
    assert!(SmtpProxy::data_finished(b"hello\r\n."));
    assert!(!SmtpProxy::data_finished(b"."));
}

#[test]
fn geoip_knows_a_few_ranges() {
    let g = GeoIP::new();
    let us = IpAddress::V4(0x0808_0808);
    let other = IpAddress::V4(0x0101_0101);
    assert_eq!(g.get_geo_info(&us).city, Some("Mountain View".to_string()));
    assert!(!g.is_allowed_country(&us, &["DE".to_string()]));
    assert!(g.is_allowed_country(&other, &["DE".to_string()]));
    let table = vec![("US".to_string(), "us:1".to_string()), ("default".to_string(), "d:1".to_string())];
    assert_eq!(g.select_backend_by_geo(&us, &table), Some("us:1".to_string()));
    assert_eq!(g.select_backend_by_geo(&other, &table), Some("d:1".to_string()));
}

#[test]
fn log_levels_filter() {
    assert!(LogLevel::Info.should_log(&LogLevel::Error));
    assert!(!LogLevel::Warn.should_log(&LogLevel::Info));
    assert!(LogLevel::Debug.should_log(&LogLevel::Debug));
    assert_eq!(LogLevel::Warn.label(), "WARN");
}

#[test]
fn platform_paths() {
    let linux = PlatformInfo::with_values("linux".to_string(), "x86_64".to_string(), "unix".to_string());
    assert!(linux.is_linux() && linux.is_unix() && !linux.is_windows() && !linux.is_macos());
    assert_eq!(linux.get_default_config_path(), "/etc/nginx/nginx.conf");
    let win = PlatformInfo::with_values("windows".to_string(), "x86_64".to_string(), "windows".to_string());
    assert_eq!(win.get_default_pid_path(), "C:\\ProgramData\\nginx\\nginx.pid");
    assert_eq!(PathUtils::normalize_path("a\\b/c", false), "a/b/c");
    assert_eq!(PathUtils::normalize_path("a\\b/c", true), "a\\b\\c");
    assert_eq!(PathUtils::join_paths(&["a", "b", "c"], false), "a/b/c");
    assert!(PathUtils::is_absolute_path("/x", false));
    assert!(PathUtils::is_absolute_path("C:\\x", true));
    assert!(!PathUtils::is_absolute_path("x", false));
}

#[test]
fn workers_start_and_stop() {
    let mut w = WorkerProcess::new(7);
    assert_eq!(w.get_pid(), 7);
    w.set_status(WorkerStatus::Failed);
    assert_eq!(*w.get_status(), WorkerStatus::Failed);
    let mut pm = ProcessManager::new(100, Config::default());
    pm.start_worker_processes(3);
    pm.shutdown_workers();
}

#[test]
fn performance_counters() {
    let mut m = PerformanceMonitor::new();
    m.record_request();
    m.record_error();
    m.record_response_time(1500);
    assert_eq!(m.increment_connections(), 1);
    assert_eq!(m.decrement_connections(), 0);
    assert_eq!(m.decrement_connections(), 0);
    m.reset_stats();
    assert_eq!((m.request_count, m.error_count, m.total_response_time), (0, 0, 0));
    assert_eq!(MemoryPool::new().allocate(4), vec![0u8; 4]);
}

#[test]
fn tls_settings_and_keys() {
    let t = TlsConfig::new("c.pem".to_string(), "k.pem".to_string()).with_client_auth(true).with_ocsp_stapling(true);
    assert!(t.client_auth && t.ocsp_stapling);
    assert_eq!(choose_keys(Some(vec![]), Some(vec![vec![1u8]])), vec![vec![1u8]]);
    assert_eq!(choose_keys(Some(vec![vec![2u8]]), Some(vec![vec![1u8]])), vec![vec![2u8]]);
    assert_eq!(choose_keys(None, None), Vec::<Vec<u8>>::new());
    assert_eq!(first_key(vec![]), Err(TlsError::NoPrivateKey));
    assert!(load_keys(b"no pem here").is_empty());
}

#[test]
fn websocket_upgrade_detection() {
    let ws = WebSocketProxy::new("b:1".to_string());
    let mut req = HttpRequest::new("GET", "/ws");
    req.headers.push(("Upgrade".to_string(), "WebSocket".to_string()));
    req.headers.push(("Connection".to_string(), "keep-alive, Upgrade".to_string()));
    req.headers.push(("Sec-WebSocket-Key".to_string(), "abc".to_string()));
    assert!(ws.is_websocket_upgrade(&req));
    let plain = HttpRequest::new("GET", "/ws");
    assert!(!ws.is_websocket_upgrade(&plain));
}

#[test]
fn image_types_and_numbers() {
    let p = ImageProcessor::new();
    assert!(p.is_supported_image_format("image/png"));
    assert!(!p.is_supported_image_format("image/bmp"));
    assert_eq!(format_decimal(1234567890), "1234567890");
    assert_eq!(format_decimal(0), "0");
    assert_eq!(parse_decimal("255", 255), Some(255));
    assert_eq!(parse_decimal("256", 255), None);
    assert_eq!(parse_decimal("", 255), None);
}

#[test]
fn imap_replies_carry_the_tag() {
    assert_eq!(ImapProxy::reply("a1 NOOP"), ("a1 BAD Command not understood\r\n".to_string(), false));
    assert_eq!(ImapProxy::reply("noop"), ("noop OK NOOP completed\r\n".to_string(), false));
    assert_eq!(
        ImapProxy::reply("logout"),
        ("* BYE Proxy closing connection\r\nlogout OK LOGOUT completed\r\n".to_string(), true)
    );
    assert_eq!(ImapProxy::reply(""), ("".to_string(), false));
}

#[test]
fn access_log_message_format() {
    assert_eq!(
        cool_nginx::logging::access_message("1.2.3.4", "GET", "/a", 200, 512),
        "1.2.3.4 - \"GET /a\" 200 512"
    );
}

#[test]
fn fastcgi_stub_answer() {
    let mut req = HttpRequest::new("POST", "/app.php");
    req.body = b"abc".to_vec();
    let r = FastCgiClient::new("127.0.0.1:9000".to_string()).handle_request(&req);
    assert_eq!(r.status, 200);
    let page = String::from_utf8(r.body).unwrap();
    assert!(page.contains("Request processed for URI: /app.php</p><p>Body size: 3 bytes"));
}

#[test]
fn error_pages_by_status() {
    let mut pages = ErrorPages::new();
    let r = pages.create_error_response(404);
    assert_eq!(r.status, 404);
    assert!(String::from_utf8(r.body).unwrap().contains("<h1>Not Found</h1>"));
    let teapot = String::from_utf8(pages.create_error_response(418).body).unwrap();
    assert!(teapot.contains("418 I'm a teapot"));
    let odd = String::from_utf8(pages.create_error_response(599).body).unwrap();
    assert!(odd.contains("599 Unknown Error"));
    pages.add_page(404, "gone".to_string());
    assert_eq!(pages.get_page(404), Some("gone".to_string()));
    assert_eq!(pages.create_error_response(404).body, b"gone".to_vec());
}

#[test]
fn config_variables_substitute() {
    let mut m = ConfigManager::new(Config::default());
    m.set_variable("port".to_string(), "8080".to_string());
    m.set_variable("host".to_string(), "example.org".to_string());
    m.set_variable("port".to_string(), "9090".to_string());
    assert_eq!(m.get_variable("port"), Some("9090".to_string()));
    assert_eq!(m.get_variable("missing"), None);
    assert_eq!(m.parse_with_variables("listen ${host}:${port}; ${port}"), "listen example.org:9090; 9090");
    assert_eq!(replace_text("aaa", "aa", "b"), "ba");
    assert_eq!(replace_text("abc", "", "x"), "abc");
    assert_eq!(m.get_config().server.listen_addr, "127.0.0.1:80");
}

#[test]
fn directory_requests_and_signals() {
    let with_listing = cool_nginx::static_files::StaticServer::new("./public".to_string(), Config::default());
    let without = cool_nginx::static_files::StaticServer::with_auto_index("./public".to_string(), false, Config::default());
    assert_eq!(with_listing.directory_action(true), cool_nginx::static_files::DirectoryAction::ServeIndex);
    assert_eq!(with_listing.directory_action(false), cool_nginx::static_files::DirectoryAction::List);
    assert_eq!(without.directory_action(false), cool_nginx::static_files::DirectoryAction::Forbidden);
    assert_eq!(
        cool_nginx::platform::SignalHandler::action_for(cool_nginx::platform::ProcessSignal::Hangup),
        cool_nginx::platform::SignalAction::Reload
    );
    assert_eq!(
        cool_nginx::platform::SignalHandler::action_for(cool_nginx::platform::ProcessSignal::Terminate),
        cool_nginx::platform::SignalAction::Shutdown
    );
}

#[test]
fn first_word_skips_unicode_space() {
    assert_eq!(cool_nginx::mail::first_word("  a1 NOOP"), Some("a1".to_string()));
    assert_eq!(cool_nginx::mail::first_word("\u{3000}tag\u{2003}rest"), Some("tag".to_string()));
    assert_eq!(cool_nginx::mail::first_word(" \t\r\n"), None);
}

#[test]
fn ab_testing_hashes_utf8_bytes() {
    let mut ab = ABTesting::new();
    ab.add_experiment("e".to_string(), vec![variant("A", 1, "a:1"), variant("B", 1, "b:1")]);
    // "é" is C3 A9: 195 * 31 + 169 + 1 = 6215, odd, so the second variant.
    assert_eq!(ab.select_backend("e", "é"), Some("b:1".to_string()));
    let stats = ab.get_experiment_stats("e").unwrap();
    assert_eq!(stats.variants[0].name, "A");
}

#[test]
fn decoded_credentials_are_checked() {
    let mut auth = BasicAuth::new();
    auth.add_user("bob".to_string(), "pw".to_string());
    assert!(auth.check_credentials(&b"bob:pw".to_vec()));
    assert!(!auth.check_credentials(&b"bob:pw:x".to_vec()));
    assert!(!auth.check_credentials(&b"bob".to_vec()));
    assert!(!auth.check_credentials(&b"eve:pw".to_vec()));
}

#[test]
fn upgrade_rule_on_lowercased_values() {
    assert!(WebSocketProxy::upgrade_requested("GET", Some("websocket"), Some("keep-alive, upgrade"), true));
    assert!(!WebSocketProxy::upgrade_requested("GET", Some("WebSocket"), Some("upgrade"), true));
    assert!(!WebSocketProxy::upgrade_requested("POST", Some("websocket"), Some("upgrade"), true));
    assert!(!WebSocketProxy::upgrade_requested("GET", Some("websocket"), None, true));
    assert!(!WebSocketProxy::upgrade_requested("GET", Some("websocket"), Some("upgrade"), false));
}

#[test]
fn error_pages_cover_the_common_statuses() {
    let pages = ErrorPages::new();
    for (code, title) in [(500, "Internal Server Error"), (400, "Bad Request"), (401, "Unauthorized"), (403, "Forbidden")] {
        let page = pages.get_page(code).unwrap();
        assert!(page.contains(&format!("<h1>{}</h1>", title)));
    }
}
