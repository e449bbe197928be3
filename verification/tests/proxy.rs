use tezweb::http::{Method, Request};
use tezweb::proxy::{plan_proxy, proxy_reply, ProxyRule};

fn request(method: Method, path: &str, query: &str) -> Request {
    let mut r = Request::new();
    r.method = method;
    r.path = path.to_string();
    r.query = query.to_string();
    r
}

#[test]
fn upstream_request_is_planned() {
    let p = plan_proxy(&request(Method::GET, "/api/users", "a=1"), "http://localhost:3000/", "/api");
    assert_eq!(p.host, "localhost");
    assert_eq!(p.port, 3000);
    assert_eq!(p.addr, "localhost:3000");
    assert_eq!(p.path, "/users");
    assert_eq!(
        p.request,
        "GET /users?a=1 HTTP/1.1\r\nHost: localhost\r\nConnection: close\r\nUser-Agent: TezWeb-Proxy/0.1\r\n\r\n"
    );
}

#[test]
fn upstream_defaults() {
    let p = plan_proxy(&request(Method::POST, "/api", ""), "https://backend", "/api");
    assert_eq!((p.host.as_str(), p.port, p.path.as_str()), ("backend", 80, "/"));
    assert!(p.request.starts_with("POST / HTTP/1.1\r\nHost: backend\r\n"));
    let q = plan_proxy(&request(Method::GET, "/other", ""), "example.org:notaport", "/api");
    assert_eq!((q.host.as_str(), q.port, q.path.as_str()), ("example.org", 80, "/other"));
    let rule = ProxyRule { prefix: "/api".to_string(), target: "x".to_string() };
    assert_eq!(rule.clone().prefix, "/api");
}

#[test]
fn upstream_reply_becomes_a_response() {
    let r = proxy_reply(b"HTTP/1.1 404 Not Found\r\nX: y\r\n\r\nbody");
    assert_eq!(r.status, 404);
    assert_eq!(r.body, b"body".to_vec());
    let e = proxy_reply(b"");
    assert_eq!(e.status, 502);
    assert_eq!(e.body, b"Proxy: empty response".to_vec());
    let odd = proxy_reply(b"garbage");
    assert_eq!(odd.status, 200);
    assert_eq!(odd.body, b"garbage".to_vec());
}

#[test]
fn proxy_reply_headers_and_connection() {
    let r = proxy_reply(b"HTTP/1.1 200 OK\r\nX: y\r\n\r\nok");
    assert!(r.headers.is_empty());
    assert!(r.keep_alive);
    let e = proxy_reply(b"");
    assert_eq!(e.headers, vec![("Content-Type".to_string(), "text/plain".to_string())]);
    assert!(e.keep_alive);
}
