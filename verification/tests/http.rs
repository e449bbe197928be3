use tezweb::http::parser::{request_from_head, HeadParse};
use tezweb::common::StatusCode;
use tezweb::http::parser::url_decode;
use tezweb::http::{Method, Request, Response};
use tezweb::io::buffer::IoBuffer;

fn parse(raw: &[u8]) -> (Result<Option<Request>, u16>, Vec<u8>) {
    let mut buf = IoBuffer::from_slice(raw);
    let r = Request::parse(&mut buf);
    (r, buf.to_vec())
}

#[test]
fn parses_get_with_query_and_headers() {
    let (r, rest) = parse(b"GET /search?q=rust&page=2 HTTP/1.1\r\nHost: x\r\n\r\n");
    let req = r.unwrap().unwrap();
    assert_eq!(req.method, Method::GET);
    assert_eq!(req.path, "/search");
    assert_eq!(req.query, "q=rust&page=2");
    assert_eq!(req.headers, vec![("Host".to_string(), "x".to_string())]);
    assert!(req.keep_alive);
    assert!(!req.chunked);
    assert!(rest.is_empty());
    assert_eq!(req.query("q"), Some("rust"));
    assert_eq!(req.query("page"), Some("2"));
    assert_eq!(req.query("none"), None);
    let all = req.query_all();
    assert_eq!(all.len(), 2);
    assert_eq!(all.get("page").unwrap(), "2");
}

#[test]
fn connection_close_turns_keep_alive_off() {
    let (r, _) = parse(b"GET / HTTP/1.1\r\nConnection: close\r\n\r\n");
    assert!(!r.unwrap().unwrap().keep_alive);
    let (r, _) = parse(b"GET / HTTP/1.1\r\nconnection: Keep-Alive\r\n\r\n");
    assert!(r.unwrap().unwrap().keep_alive);
}

#[test]
fn body_is_read_by_content_length() {
    let (r, rest) = parse(b"POST /f HTTP/1.1\r\nContent-Length: 5\r\n\r\nhelloEXTRA");
    let req = r.unwrap().unwrap();
    assert_eq!(req.method, Method::POST);
    assert_eq!(req.body, b"hello".to_vec());
    assert_eq!(rest, b"EXTRA".to_vec());
}

#[test]
fn short_body_is_left_in_the_buffer() {
    let (r, rest) = parse(b"POST /f HTTP/1.1\r\nContent-Length: 10\r\n\r\nhey");
    let req = r.unwrap().unwrap();
    assert!(req.body.is_empty());
    assert_eq!(rest, b"hey".to_vec());
}

#[test]
fn chunked_body_is_joined() {
    let (r, rest) = parse(
        b"POST /c HTTP/1.1\r\nTransfer-Encoding: chunked\r\n\r\n4\r\nWiki\r\n5\r\npedia\r\n0\r\n\r\n",
    );
    let req = r.unwrap().unwrap();
    assert!(req.chunked);
    assert_eq!(req.body, b"Wikipedia".to_vec());
    assert!(rest.is_empty());
}

#[test]
fn bad_chunk_size_is_an_error() {
    let (r, _) = parse(b"POST /c HTTP/1.1\r\nTransfer-Encoding: chunked\r\n\r\nzz\r\nab\r\n");
    assert_eq!(r.err(), Some(400));
}

#[test]
fn partial_head_needs_more_input() {
    let (r, rest) = parse(b"GET / HTTP/1.1\r\nHost: x\r\n");
    assert!(r.unwrap().is_none());
    assert_eq!(rest.len(), 25);
}

#[test]
fn unknown_method_is_an_error() {
    let (r, _) = parse(b"BREW / HTTP/1.1\r\n\r\n");
    assert_eq!(r.err(), Some(400));
    let (r, _) = parse(b"GET / HTTP/1.1\r\nBad Header\r\n\r\n");
    assert_eq!(r.err(), Some(400));
}

#[test]
fn form_fields_are_url_decoded() {
    let mut req = Request::new();
    req.body = b"name=John+Doe&city=New%20York&x".to_vec();
    req.headers.push((
        "Content-Type".to_string(),
        "Application/X-WWW-Form-Urlencoded; charset=utf-8".to_string(),
    ));
    assert!(req.is_form());
    assert!(!req.is_json());
    assert_eq!(req.form("name"), Some("John Doe".to_string()));
    assert_eq!(req.form("city"), Some("New York".to_string()));
    assert_eq!(req.form("x"), Some(String::new()));
    assert_eq!(req.form("none"), None);
    let all = req.form_all();
    assert_eq!(all.len(), 3);
    assert_eq!(all.get("city").unwrap(), "New York");
}

#[test]
fn json_content_type_is_recognised() {
    let mut req = Request::default();
    req.headers.push(("content-type".to_string(), "application/json".to_string()));
    assert!(req.is_json());
}

#[test]
fn url_decode_handles_escapes() {
    assert_eq!(url_decode("a+b%21"), "a b!");
    assert_eq!(url_decode("%zz"), "%zz");
    assert_eq!(url_decode("100%"), "100%");
    assert_eq!(url_decode("%C3%A9"), "\u{c3}\u{a9}");
}

#[test]
fn method_names_read_back() {
    for m in [
        Method::GET,
        Method::POST,
        Method::PUT,
        Method::DELETE,
        Method::PATCH,
        Method::HEAD,
        Method::OPTIONS,
        Method::CONNECT,
        Method::TRACE,
    ] {
        assert_eq!(Method::from_str(m.as_str()), Some(m));
        assert_eq!(Method::from_bytes(m.as_str().as_bytes()), Some(m));
    }
    assert_eq!(Method::from_str("get"), None);
    assert_eq!(Method::DELETE.code(), 3);
    assert_eq!(Method::default(), Method::GET);
}

#[test]
fn status_lines() {
    assert_eq!(Response::status_text(200), "200 OK");
    assert_eq!(Response::status_text(429), "429 Too Many Requests");
    assert_eq!(Response::status_text(418), "500 Internal Server Error");
    let s = StatusCode::from(404u16);
    assert_eq!(s.as_str(), "404 Not Found");
    assert!(s.is_client_error());
    assert!(!s.is_success());
    assert!(StatusCode(503).is_server_error());
    assert_eq!(u16::from(StatusCode(201)), 201);
}

#[test]
fn response_is_written_with_length_and_keep_alive() {
    let resp = Response::ok().text("hi");
    let mut buf = IoBuffer::new();
    resp.write_to(&mut buf);
    assert_eq!(
        String::from_utf8(buf.to_vec()).unwrap(),
        "HTTP/1.1 200 OK\r\nConnection: keep-alive\r\nKeep-Alive: timeout=60, max=10000\r\nContent-Length: 2\r\nContent-Type: text/plain\r\n\r\nhi"
    );
}

#[test]
fn response_without_keep_alive_skips_connection_headers() {
    let resp = Response::not_found()
        .keep_alive(false)
        .header("Connection", "upgrade")
        .header("Content-Length", "0");
    let mut buf = IoBuffer::new();
    resp.write_to(&mut buf);
    assert_eq!(
        String::from_utf8(buf.to_vec()).unwrap(),
        "HTTP/1.1 404 Not Found\r\nConnection: close\r\nContent-Length: 0\r\n\r\n"
    );
}

#[test]
fn response_builders() {
    assert_eq!(Response::created().status, 201);
    assert_eq!(Response::no_content().status, 204);
    assert_eq!(Response::bad_request().status, 400);
    assert_eq!(Response::internal_error().status, 500);
    let r = Response::ok().html("<b>x</b>");
    assert_eq!(r.body, b"<b>x</b>".to_vec());
    assert_eq!(r.headers, vec![("Content-Type".to_string(), "text/html".to_string())]);
    let j = Response::ok().json_bytes(Some(b"{}".to_vec()));
    assert_eq!(j.status, 200);
    assert_eq!(j.body, b"{}".to_vec());
    let f = Response::ok().json_bytes(None);
    assert_eq!(f.status, 500);
    assert_eq!(f.body, b"{\"error\":\"serialization failed\"}".to_vec());
}

#[test]
fn sse_response_headers() {
    let (resp, _stream) = Response::sse();
    assert_eq!(resp.status, 200);
    assert!(resp.sse.is_some());
    let mut buf = IoBuffer::new();
    resp.write_sse_headers(&mut buf);
    assert_eq!(
        String::from_utf8(buf.to_vec()).unwrap(),
        "HTTP/1.1 200 OK\r\nConnection: keep-alive\r\nContent-Type: text/event-stream\r\nCache-Control: no-cache\r\nX-Accel-Buffering: no\r\n\r\n"
    );
}

#[test]
fn request_from_a_reported_head() {
    let raw = b"POST /a?b=1 HTTP/1.1\r\nContent-Length: 3\r\n\r\nxyzrest";
    let mut buf = IoBuffer::from_slice(raw);
    let head = HeadParse::Complete {
        len: 43,
        method: "POST".to_string(),
        path: "/a?b=1".to_string(),
        headers: vec![("Content-Length".to_string(), b"3".to_vec())],
    };
    let req = request_from_head(head, &mut buf).unwrap().unwrap();
    assert_eq!(req.method, Method::POST);
    assert_eq!(req.path, "/a");
    assert_eq!(req.query, "b=1");
    assert_eq!(req.body, b"xyz".to_vec());
    assert_eq!(buf.to_vec(), b"rest".to_vec());
    let mut buf2 = IoBuffer::from_slice(b"GE");
    assert!(matches!(request_from_head(HeadParse::Partial, &mut buf2), Ok(None)));
    assert!(matches!(request_from_head(HeadParse::Invalid, &mut buf2), Err(400)));
    let bad = HeadParse::Complete { len: 0, method: "BREW".to_string(), path: "/".to_string(), headers: Vec::new() };
    assert!(matches!(request_from_head(bad, &mut buf2), Err(400)));
}

#[test]
fn method_names_are_distinct_and_read_back() {
    let all = [
        Method::GET, Method::POST, Method::PUT, Method::DELETE, Method::PATCH,
        Method::HEAD, Method::OPTIONS, Method::CONNECT, Method::TRACE,
    ];
    for (i, m) in all.iter().enumerate() {
        assert_eq!(Method::from_bytes(m.as_str().as_bytes()), Some(*m));
        for n in &all[i + 1..] {
            assert_ne!(m.as_str(), n.as_str());
        }
    }
    assert_eq!(Method::DELETE.as_str(), "DELETE");
}
