use tezweb::common::cache_control::cache_control;
use tezweb::common::header::{HeaderName, HeaderValue, Headers};
use tezweb::common::health::Health;
use tezweb::common::request_id::{format_request_id, generate_request_id};
use tezweb::common::session::SessionStore;
use tezweb::common::{mime_type, parse_cookies, resolve_path, Cookie, TezConfig, TezError};

#[test]
fn header_names_read_back_in_any_case() {
    let names = [
        HeaderName::ContentType,
        HeaderName::ContentLength,
        HeaderName::Authorization,
        HeaderName::Accept,
        HeaderName::CacheControl,
        HeaderName::Connection,
        HeaderName::KeepAlive,
        HeaderName::Host,
        HeaderName::UserAgent,
    ];
    for n in names {
        assert_eq!(HeaderName::from_str(n.as_str()), n);
        assert_eq!(HeaderName::from_str(&n.as_str().to_ascii_uppercase()), n);
    }
    assert_eq!(HeaderName::from_str("X-Custom"), HeaderName::Custom("X-Custom".to_string()));
    assert_eq!(HeaderName::Custom("X-Custom".to_string()).as_str(), "X-Custom");
}

#[test]
fn header_values_and_maps() {
    assert_eq!(HeaderValue::new("v").as_str(), "v");
    assert_eq!(HeaderValue::from("w").as_str(), "w");
    assert_eq!(HeaderValue::from("z".to_string()).as_str(), "z");
    let mut h = Headers::new();
    assert!(h.is_empty());
    h.insert("content-type", "text/plain");
    h.insert("content-length", "42");
    h.insert("content-type", "text/html");
    assert!(!h.is_empty());
    assert_eq!(h.content_type(), Some("text/html"));
    assert_eq!(h.content_length(), Some(42));
    assert!(h.contains_key("content-length"));
    assert!(!h.contains_key("Content-Length"));
    assert_eq!(h.iter().len(), 2);
    h.insert("content-length", "+7");
    assert_eq!(h.content_length(), Some(7));
    h.insert("content-length", "seven");
    assert_eq!(h.content_length(), None);
    assert_eq!(Headers::default().get("x"), None);
}

#[test]
fn cookie_header_text() {
    assert_eq!(Cookie::new("a", "b").to_header(), "a=b; Path=/; HttpOnly");
    let c = Cookie::new("sid", "42").secure(true).max_age(3600).http_only(false).path("/app");
    assert_eq!(c.to_header(), "sid=42; Path=/app; Max-Age=3600; Secure");
    let mut d = Cookie::new("x", "y");
    d.domain = Some("example.com".to_string());
    d.path = None;
    assert_eq!(d.to_header(), "x=y; Domain=example.com; HttpOnly");
}

#[test]
fn cookie_header_is_parsed() {
    let m = parse_cookies("a=1; b = 2 ;c; d=x=y; a=3");
    assert_eq!(m.get("a").unwrap(), "3");
    assert_eq!(m.get("b").unwrap(), "2");
    assert_eq!(m.get("c").unwrap(), "");
    assert_eq!(m.get("d").unwrap(), "x=y");
    assert_eq!(m.len(), 4);
    let e = parse_cookies("k=v;");
    assert_eq!(e.get("").unwrap(), "");
    assert_eq!(e.len(), 2);
}

#[test]
fn cache_control_examples() {
    assert_eq!(cache_control().public().max_age(3600).to_header(), "public, max-age=3600");
    assert_eq!(cache_control().no_store().to_header(), "no-store");
    assert_eq!(cache_control().private().max_age(0).to_header(), "private, max-age=0");
    assert_eq!(cache_control().to_header(), "");
    assert_eq!(
        cache_control().immutable().no_cache().no_store().public().to_header(),
        "no-store, no-cache, public, immutable"
    );
}

#[test]
fn config_defaults_and_builders() {
    let c = TezConfig::new();
    assert_eq!(c.host, "127.0.0.1");
    assert_eq!(c.port, 8080);
    assert!(c.workers >= 1);
    assert_eq!(c.keep_alive_timeout, std::time::Duration::from_secs(5));
    assert_eq!(c.max_connections, 10_000);
    assert_eq!(c.max_body_size, 10 * 1024 * 1024);
    assert!(c.tcp_nodelay && c.http2_enabled);
    assert_eq!(c.addr(), "127.0.0.1:8080");
    let d = TezConfig::default().host("0.0.0.0").port(80).workers(3).max_connections(5).http2_enabled(false);
    assert_eq!(d.addr(), "0.0.0.0:80");
    assert_eq!(d.workers, 3);
    assert_eq!(d.max_connections, 5);
    assert!(!d.http2_enabled);
}

#[test]
fn session_lifecycle_with_explicit_times() {
    let mut store = SessionStore::new(10);
    let id = store.create_at(0xabc, 1_000);
    assert_eq!(id, "sess_abc");
    assert!(store.set_at(&id, "user", "alice", 2_000));
    assert_eq!(store.get_at(&id, "user", 3_000), Some("alice".to_string()));
    assert_eq!(store.get_at(&id, "other", 3_000), None);
    let deadline = 1_000 + 10 * 1_000_000_000;
    assert_eq!(store.get_at(&id, "user", deadline), Some("alice".to_string()));
    assert_eq!(store.get_at(&id, "user", deadline + 1), None);
    assert!(!store.set_at(&id, "user", "bob", deadline + 1));
    assert!(!store.set_at("sess_none", "user", "bob", 0));
    store.cleanup_at(deadline + 1);
    assert_eq!(store.get_at(&id, "user", 0), None);
}

#[test]
fn session_store_now() {
    let mut store = tezweb::common::session_store(3600);
    let id = store.create();
    assert!(id.starts_with("sess_"));
    assert!(store.set(&id, "k", "v"));
    assert_eq!(store.get(&id, "k"), Some("v".to_string()));
    store.cleanup();
    assert_eq!(store.get(&id, "k"), Some("v".to_string()));
    store.destroy(&id);
    assert_eq!(store.get(&id, "k"), None);
}

#[test]
fn mime_types_by_extension() {
    assert_eq!(mime_type("index.html"), "text/html; charset=utf-8");
    assert_eq!(mime_type("a/b/app.JS"), "application/javascript");
    assert_eq!(mime_type("photo.jpeg"), "image/jpeg");
    assert_eq!(mime_type("font.woff2"), "font/woff2");
    assert_eq!(mime_type("data.tar.zip"), "application/zip");
    assert_eq!(mime_type("README"), "application/octet-stream");
    assert_eq!(mime_type("csv"), "text/csv");
    assert_eq!(mime_type("x."), "application/octet-stream");
}

#[test]
fn request_paths_resolve_under_the_directory() {
    assert_eq!(resolve_path("/static/css/app.css", "/static", "public"), "public/css/app.css");
    assert_eq!(resolve_path("/static", "/static", "public"), "public/index.html");
    assert_eq!(resolve_path("/static/", "/static", "public/"), "public/index.html");
    assert_eq!(resolve_path("/static/docs", "/static", "public"), "public/docs/index.html");
    assert_eq!(resolve_path("/other/x.png", "/static", "public"), "public/index.html");
    assert_eq!(resolve_path("/s//a.txt", "/s", ""), "a.txt");
}

#[test]
fn request_ids_have_their_format() {
    assert_eq!(format_request_id(0, 1), "tez-9e3779b9-0001");
    assert_eq!(format_request_id(0xffff_ffff, 0), "tez-ffffffff-0000");
    let expected = format!("tez-{:08x}-{:04}", 1u32 ^ 123_456u32.wrapping_mul(0x9e3779b9), 3456);
    assert_eq!(format_request_id(1, 123_456), expected);
    let id = generate_request_id(7);
    assert_eq!(id.len(), 17);
    assert!(id.starts_with("tez-") && id.ends_with("-0007"));
}

#[test]
fn health_report() {
    let mut h = Health::new();
    assert_eq!(h.uptime_secs(5), 0);
    h.init_health(1_000_000_000);
    h.init_health(9_000_000_000);
    h.increment_requests();
    h.increment_requests();
    assert_eq!(h.total_requests(), 2);
    assert_eq!(h.uptime_secs(6_500_000_000), 5);
    assert_eq!(h.uptime_secs(0), 0);
    assert_eq!(
        h.health_json(6_500_000_000, "1.0"),
        "{\"status\":\"ok\",\"uptime_secs\":5,\"requests_total\":2,\"version\":\"1.0\"}"
    );
}

#[test]
fn error_messages() {
    let err = TezError::Internal("something broke".into());
    assert_eq!(err.message(), "Internal error: something broke");
    assert_eq!(TezError::Http(404).message(), "HTTP error: 404");
    assert_eq!(TezError::Parse("x".into()).message(), "Parse error: x");
    assert_eq!(TezError::Timeout.message(), "Timeout");
    assert_eq!(TezError::Closed.message(), "Connection closed");
    assert_eq!(TezError::RateLimitExceeded.message(), "Rate limit exceeded");
    assert_eq!(TezError::RequestTimeout.message(), "Request timeout");
    assert_eq!(
        TezError::BodyTooLarge { size: 20, limit: 10 }.message(),
        "Body too large: 20 bytes exceeds limit of 10 bytes"
    );
    assert_eq!(TezError::Ws("bad frame".into()).message(), "WebSocket error: bad frame");
    let io = TezError::from(std::io::Error::new(std::io::ErrorKind::Other, "disk"));
    assert_eq!(io.message(), "IO error: disk");
    let json_err = serde_json::from_str::<u8>("x").unwrap_err();
    assert!(TezError::from(json_err).message().starts_with("JSON error: "));
    assert_eq!(TezError::from("boom".to_string()).message(), "Internal error: boom");
}
