use tezweb::graphql_serve::{
    graphql_cached_at, graphql_client, graphql_finish_at, graphql_prepare_at, GqlStep,
};
use tezweb::graphql::{
    graphiql_response, hit_rate_percent, GraphQLConfig, GraphQLRateLimit, PersistedQueries,
    QueryCache,
};

#[test]
fn graphql_rate_limit_per_minute() {
    let mut l = GraphQLRateLimit::new(1);
    assert!(l.check_at("ip", 0));
    assert!(!l.check_at("ip", 30_000_000_000));
    assert!(!l.check_at("ip", 60_000_000_000));
    assert!(l.check_at("ip", 60_000_000_001));
    assert!(l.check_at("other", 0));
    let mut m = GraphQLRateLimit::new(3);
    assert!(m.check("x"));
}

#[test]
fn query_cache_entries_expire() {
    let mut c = QueryCache::new(2);
    assert_eq!(c.get_at("q", 0), None);
    c.set_at("q".to_string(), b"resp".to_vec(), 1_000);
    assert_eq!(c.get_at("q", 1_000 + 1_999_999_999), Some(b"resp".to_vec()));
    assert_eq!(c.get_at("q", 1_000 + 2_000_000_000), None);
    c.set("r".to_string(), b"x".to_vec());
    assert_eq!(c.get("r"), Some(b"x".to_vec()));
}

#[test]
fn persisted_queries_read_back_by_hash() {
    let mut p = PersistedQueries::new();
    let h = p.register("{ users { id } }".to_string());
    assert!(h.chars().all(|c| c.is_ascii_hexdigit()));
    assert_eq!(p.get(&h), Some("{ users { id } }".to_string()));
    assert_eq!(p.get("nope"), None);
    let h2 = p.register("{ users { id } }".to_string());
    assert_eq!(h, h2);
}

#[test]
fn config_builders() {
    let c = GraphQLConfig::new();
    assert_eq!((c.max_depth, c.max_complexity), (10, 100));
    assert!(c.rate_limit.is_none() && c.cache.is_none() && c.persisted.is_none());
    let d = GraphQLConfig::default().max_depth(3).max_complexity(7).rate_limit(5).cache(30).persisted_queries();
    assert_eq!((d.max_depth, d.max_complexity), (3, 7));
    assert!(d.rate_limit.is_some() && d.cache.is_some() && d.persisted.is_some());
}

#[test]
fn stats_and_page() {
    assert_eq!(hit_rate_percent(0, 0), 0);
    assert_eq!(hit_rate_percent(1, 3), 25);
    assert_eq!(hit_rate_percent(2, 1), 66);
    let r = graphiql_response("/graphql");
    assert_eq!(r.status, 200);
    assert_eq!(r.headers, vec![("Content-Type".to_string(), "text/html".to_string())]);
    let page = String::from_utf8(r.body).unwrap();
    assert!(page.contains("/graphql"));
}

#[test]
fn graphql_serving_steps() {
    let headers = vec![
        ("x-forwarded-for".to_string(), "lower".to_string()),
        ("X-Forwarded-For".to_string(), "1.2.3.4".to_string()),
    ];
    assert_eq!(graphql_client(&headers), "1.2.3.4");
    assert_eq!(graphql_client(&Vec::new()), "unknown");

    let mut cfg = GraphQLConfig::new().rate_limit(1).cache(30).persisted_queries();
    let body = br#"{"query":"{ a }"}"#;
    match graphql_prepare_at(&mut cfg, "ip", body, 0) {
        GqlStep::Execute { body: b, persisted_hit } => {
            assert_eq!(b, r#"{"query":"{ a }"}"#);
            assert!(!persisted_hit);
        },
        GqlStep::Respond { .. } => panic!("expected to run"),
    }
    match graphql_prepare_at(&mut cfg, "ip", body, 1) {
        GqlStep::Respond { response, failed } => {
            assert!(failed);
            assert_eq!(response.status, 429);
            assert_eq!(response.body, b"GraphQL rate limit exceeded".to_vec());
        },
        GqlStep::Execute { .. } => panic!("expected a refusal"),
    }
    match graphql_prepare_at(&mut cfg, "other", &[0xff, 0xfe], 1) {
        GqlStep::Respond { response, failed } => {
            assert!(failed);
            assert_eq!(response.status, 400);
            assert_eq!(response.body, b"Invalid UTF-8".to_vec());
        },
        GqlStep::Execute { .. } => panic!("expected a refusal"),
    }
    let missing = br#"{"extensions":{"persistedQuery":{"sha256Hash":"abc"}}}"#;
    match graphql_prepare_at(&mut cfg, "third", missing, 1) {
        GqlStep::Respond { response, failed } => {
            assert!(!failed);
            assert_eq!(response.status, 400);
            assert_eq!(response.body, b"Persisted query not found: abc".to_vec());
        },
        GqlStep::Execute { .. } => panic!("expected a refusal"),
    }
    let h = cfg.persisted.as_mut().unwrap().register("{ users }".to_string());
    let named = format!(r#"{{"extensions":{{"persistedQuery":{{"sha256Hash":"{}"}}}}}}"#, h);
    match graphql_prepare_at(&mut cfg, "fourth", named.as_bytes(), 1) {
        GqlStep::Execute { body: b, persisted_hit } => {
            assert!(persisted_hit);
            let v: serde_json::Value = serde_json::from_str(&b).unwrap();
            assert_eq!(v["query"], "{ users }");
        },
        GqlStep::Respond { .. } => panic!("expected to run"),
    }

    assert!(graphql_cached_at(&cfg, "key", 5).is_none());
    let r = graphql_finish_at(&mut cfg, "key".to_string(), Some(b"{\"data\":1}".to_vec()), 5);
    assert_eq!(r.status, 200);
    assert_eq!(r.headers[1], ("X-Cache".to_string(), "MISS".to_string()));
    let hit = graphql_cached_at(&cfg, "key", 6).unwrap();
    assert_eq!(hit.body, b"{\"data\":1}".to_vec());
    assert_eq!(hit.headers[1], ("X-Cache".to_string(), "HIT".to_string()));
    assert!(graphql_cached_at(&cfg, "key", 5 + 30_000_000_000).is_none());
    let e = graphql_finish_at(&mut cfg, "k2".to_string(), None, 5);
    assert_eq!(e.status, 500);
    assert_eq!(e.body, b"Response serialize failed".to_vec());
}

#[test]
fn graphql_ith_query_within_a_minute() {
    let mut l = GraphQLRateLimit::new(2);
    assert!(l.check_at("a", 0));
    assert!(l.check_at("a", 10));
    assert!(!l.check_at("a", 20));
    assert!(l.check_at("b", 20));
    assert!(l.check_at("a", 60_000_000_001));
}

#[test]
fn graphql_limits_are_counted_per_client_on_a_monotonic_clock() {
    let mut l = GraphQLRateLimit::new(2);
    let t0 = l.clock();
    let t1 = l.clock();
    assert!(t1 >= t0);
    assert!(l.check("a"));
    assert!(l.check("a"));
    assert!(!l.check("a"));
    assert!(l.check("b"));
}
