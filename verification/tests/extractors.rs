use tezweb::extractors::{Body, FromRequest, Query, ReqHeaders};
use tezweb::http::Request;
use tezweb::strmap::StrMap;

#[test]
fn query_extractor() {
    let params: StrMap<String> = StrMap::new();
    let mut req = Request::new();
    assert!(Query::extract(&req, &params).is_none());
    req.query = "=x&&".to_string();
    assert!(Query::extract(&req, &params).is_none());
    req.query = "q=rust&page=2".to_string();
    let q = Query::extract(&req, &params).unwrap();
    assert_eq!(q.get("q").unwrap(), "rust");
    assert_eq!(q.len(), 2);
}

#[test]
fn header_and_body_extractors() {
    let params: StrMap<String> = StrMap::new();
    let mut req = Request::new();
    assert!(ReqHeaders::extract(&req, &params).is_none());
    assert!(Body::extract(&req, &params).is_none());
    req.headers.push(("A".to_string(), "b".to_string()));
    req.body = b"xyz".to_vec();
    let h = ReqHeaders::extract(&req, &params).unwrap();
    assert_eq!(*h, vec![("A".to_string(), "b".to_string())]);
    let b = Body::extract(&req, &params).unwrap();
    assert_eq!(*b, b"xyz".to_vec());
    let copy = Request::extract(&req, &params).unwrap();
    assert_eq!(copy.body, req.body);
    assert_eq!(copy.headers, req.headers);
}

#[test]
fn request_extractor_copies_everything() {
    let params: StrMap<String> = StrMap::new();
    let mut req = Request::new();
    req.path = "/a".to_string();
    req.query = "x=1".to_string();
    req.headers.push(("host".to_string(), "h".to_string()));
    req.body = b"body".to_vec();
    req.keep_alive = false;
    let c = Request::extract(&req, &params).unwrap();
    assert_eq!(c.path, "/a");
    assert_eq!(c.query, "x=1");
    assert_eq!(c.headers, req.headers);
    assert_eq!(c.body, b"body".to_vec());
    assert_eq!(c.keep_alive, false);
    assert_eq!(c.method, req.method);
}
