use tezweb::http::Method;
use tezweb::router::trie::Router;

fn make_handler() -> u32 {
    7
}

#[test]
fn test_exact_route() {
    let mut router: Router<u32, u32> = Router::new();
    router.get("/health", make_handler());
    assert!(router.find(Method::GET, "/health").is_some());
    assert!(router.find(Method::GET, "/other").is_none());
}

#[test]
fn test_param_route() {
    let mut router: Router<u32, u32> = Router::new();
    router.get("/users/:id", make_handler());
    let (_, params) = router.find(Method::GET, "/users/42").unwrap();
    assert_eq!(params.get("id").unwrap(), "42");
}

#[test]
fn test_wildcard_route() {
    let mut router: Router<u32, u32> = Router::new();
    router.get("/static/*", make_handler());
    assert!(router.find(Method::GET, "/static/index.html").is_some());
    assert!(router.find(Method::GET, "/static/css/style.css").is_some());
}

#[test]
fn test_proxy_route() {
    let mut router: Router<u32, u32> = Router::new();
    router.get("/api/*", make_handler());
    assert!(router.find(Method::GET, "/api/health").is_some());
    assert!(router.find(Method::GET, "/api/users/123").is_some());
}

#[test]
fn route_needs_matching_method() {
    let mut router: Router<u32, u32> = Router::new();
    router.get("/a", 1);
    router.post("/a", 2);
    router.put("/b", 3);
    router.delete("/b", 4);
    assert_eq!(*router.find(Method::GET, "/a").unwrap().0, 1);
    assert_eq!(*router.find(Method::POST, "/a").unwrap().0, 2);
    assert_eq!(*router.find(Method::PUT, "/b").unwrap().0, 3);
    assert_eq!(*router.find(Method::DELETE, "/b").unwrap().0, 4);
    assert!(router.find(Method::PATCH, "/a").is_none());
    assert!(router.find(Method::GET, "/b").is_none());
}

#[test]
fn later_add_replaces_handler() {
    let mut router: Router<u32, u32> = Router::new();
    router.get("/x", 1);
    router.get("/x", 2);
    assert_eq!(*router.find(Method::GET, "/x").unwrap().0, 2);
}

#[test]
fn literal_segment_wins_over_parameter() {
    let mut router: Router<u32, u32> = Router::new();
    router.get("/users/:id", 1);
    router.get("/users/me", 2);
    let (h, params) = router.find(Method::GET, "/users/me").unwrap();
    assert_eq!(*h, 2);
    assert!(params.is_empty());
    let (h, params) = router.find(Method::GET, "/users/7").unwrap();
    assert_eq!(*h, 1);
    assert_eq!(params.get("id").unwrap(), "7");
}

#[test]
fn parameters_bind_in_order() {
    let mut router: Router<u32, u32> = Router::new();
    router.get("/a/:x/b/:y", 9);
    let (h, params) = router.find(Method::GET, "/a/1/b/2").unwrap();
    assert_eq!(*h, 9);
    assert_eq!(params.get("x").unwrap(), "1");
    assert_eq!(params.get("y").unwrap(), "2");
    assert_eq!(params.len(), 2);
    assert!(router.find(Method::GET, "/a/1/c/2").is_none());
    assert!(router.find(Method::GET, "/a/1/b").is_none());
}

#[test]
fn backtracking_from_literal_to_parameter() {
    let mut router: Router<u32, u32> = Router::new();
    router.get("/files/list/all", 1);
    router.get("/files/:name/info", 2);
    let (h, params) = router.find(Method::GET, "/files/list/info").unwrap();
    assert_eq!(*h, 2);
    assert_eq!(params.get("name").unwrap(), "list");
}

#[test]
fn wildcard_ignores_method_and_matches_its_own_node() {
    let mut router: Router<u32, u32> = Router::new();
    router.get("/static/*", 5);
    assert_eq!(*router.find(Method::POST, "/static/a/b").unwrap().0, 5);
    assert_eq!(*router.find(Method::GET, "/static").unwrap().0, 5);
    assert!(router.find(Method::GET, "/stat").is_none());
}

#[test]
fn slashes_do_not_make_segments() {
    let mut router: Router<u32, u32> = Router::new();
    router.get("/health/", 1);
    router.get("/", 2);
    assert!(router.find(Method::GET, "//health").is_some());
    assert_eq!(*router.find(Method::GET, "/").unwrap().0, 2);
    assert_eq!(*router.find(Method::GET, "").unwrap().0, 2);
}

#[test]
fn websocket_routes_match_exactly() {
    let mut router: Router<u32, u32> = Router::default();
    router.add_ws("/chat", 5);
    assert_eq!(router.find_ws("/chat"), Some(5));
    assert_eq!(router.find_ws("/chat/"), None);
    assert!(router.find(Method::GET, "/chat").is_none());
}
