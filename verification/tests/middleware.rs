use std::io::Read;
use tezweb::http::{Method, Response};
use tezweb::middleware::chain::{add_cors_headers, client_key, log_line, rate_limited, with_remaining};
use tezweb::middleware::compression::{compress_brotli, compress_gzip};
use tezweb::middleware::{
    body_limit, compress, detect_encoding, rate_limit, request_timeout, BodyLimit, Encoding,
    MiddlewareChain,
};

#[test]
fn body_limit_checks_size() {
    let l = BodyLimit::new(4);
    assert_eq!(l.check(b"1234"), Ok(()));
    assert_eq!(
        l.check(b"12345"),
        Err("Body too large: 5 bytes exceeds limit of 4 bytes".to_string())
    );
    assert_eq!(body_limit(10).max_bytes, 10 * 1024 * 1024);
}

#[test]
fn encoding_is_chosen_from_accept_encoding() {
    assert_eq!(detect_encoding("gzip, deflate, br"), Encoding::Brotli);
    assert_eq!(detect_encoding("gzip"), Encoding::Gzip);
    assert_eq!(detect_encoding("identity"), Encoding::Identity);
    assert_eq!(detect_encoding("brotli-ish"), Encoding::Brotli);
}

#[test]
fn compression_round_trips() {
    let data = b"hello hello hello hello".to_vec();
    let (plain, enc) = compress(&data, "");
    assert_eq!(plain, data);
    assert_eq!(enc, None);
    let (gz, enc) = compress(&data, "gzip");
    assert_eq!(enc, Some("gzip"));
    assert_eq!(gz, compress_gzip(&data));
    let mut out = Vec::new();
    flate2::read::GzDecoder::new(&gz[..]).read_to_end(&mut out).unwrap();
    assert_eq!(out, data);
    let (br, enc) = compress(&data, "br");
    assert_eq!(enc, Some("br"));
    assert_eq!(br, compress_brotli(&data));
    assert!(!br.is_empty());
    assert_ne!(br, data);
}

#[test]
fn rate_limit_counts_per_window() {
    let mut l = rate_limit(2, 1);
    assert_eq!(l.check_at("1.1.1.1", 100), Ok(1));
    assert_eq!(l.check_at("1.1.1.1", 200), Ok(0));
    assert_eq!(l.check_at("1.1.1.1", 300), Err("Rate limit exceeded"));
    assert_eq!(l.check_at("2.2.2.2", 300), Ok(1));
    assert_eq!(l.check_at("1.1.1.1", 100 + 1_000_000_000), Ok(1));
    let mut m = rate_limit(5, 60);
    assert_eq!(m.check("x"), Ok(4));
}

#[test]
fn timeout_holds_its_duration() {
    assert_eq!(request_timeout(30).duration, std::time::Duration::from_secs(30));
}

#[test]
fn chain_runs_in_order() {
    let mut chain: MiddlewareChain<&str> = MiddlewareChain::new();
    chain.add("first");
    chain.add("second");
    assert_eq!(chain.at(0), Some(&"first"));
    assert_eq!(chain.at(1), Some(&"second"));
    assert_eq!(chain.at(2), None);
}

#[test]
fn built_in_middleware_pieces() {
    let r = add_cors_headers(Response::ok(), "*");
    assert_eq!(r.headers.len(), 3);
    assert_eq!(r.headers[0], ("Access-Control-Allow-Origin".to_string(), "*".to_string()));
    assert_eq!(r.headers[1].1, "GET, POST, PUT, DELETE, OPTIONS");
    assert_eq!(r.headers[2].1, "Content-Type, Authorization");
    assert_eq!(log_line(Method::GET, "/x", 200), "[LOG] GET /x → 200");
    let headers = vec![
        ("Host".to_string(), "h".to_string()),
        ("X-Forwarded-For".to_string(), "9.9.9.9".to_string()),
    ];
    assert_eq!(client_key(&headers), "9.9.9.9");
    assert_eq!(client_key(&Vec::new()), "global");
    let w = with_remaining(Response::ok(), 7);
    assert_eq!(w.headers, vec![("X-RateLimit-Remaining".to_string(), "7".to_string())]);
    let l = rate_limited();
    assert_eq!(l.status, 429);
    assert_eq!(l.body, b"Rate limit exceeded".to_vec());
}

#[test]
fn rate_limiter_check_counts_down() {
    let mut l = tezweb::middleware::rate_limit::RateLimiter::new(2, 60);
    assert_eq!(l.check("new"), Ok(1));
    assert_eq!(l.check("new"), Ok(0));
    assert!(l.check("new").is_err());
    assert_eq!(l.check("fresh"), Ok(1));
}

#[test]
fn added_headers_keep_the_connection_setting() {
    let base = Response::ok().keep_alive(false);
    let r = add_cors_headers(base, "*");
    assert!(!r.keep_alive);
    let r = with_remaining(r, 3);
    assert!(!r.keep_alive);
    assert!(rate_limited().keep_alive);
}
