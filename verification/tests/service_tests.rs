use fastcache::cache::CdnCache;
use fastcache::cdn_service::{CdnService, FetchResult, FetchStep};
use fastcache::config::OriginConfig;
use fastcache::etag::generate_etag;
use fastcache::http::response_for;
use fastcache::origin::{LocalOrigin, OriginResponse};
use fastcache::route::{OriginEntry, Route, Router};
use fastcache::server::build_router;

const NOW: u64 = 1_700_000_000;

fn origin_response(body: &str) -> OriginResponse {
    OriginResponse {
        body: body.as_bytes().to_vec(),
        content_type: "text/plain".to_string(),
        headers: vec![("Last-Modified".to_string(), "Mon, 01 Jan 2024 00:00:00 GMT".to_string())],
    }
}

fn service(routes: Vec<Route<usize>>) -> CdnService<usize> {
    CdnService::new(Router::new(routes), CdnCache::new(100, 3600))
}

fn route(path: &str, ttls: &[u64]) -> Route<usize> {
    Route {
        path_prefix: path.to_string(),
        origins: ttls
            .iter()
            .enumerate()
            .map(|(i, t)| OriginEntry { origin: i, cache_ttl: *t })
            .collect(),
    }
}

#[test]
fn miss_then_hit() {
    let mut svc = service(vec![route("/static", &[3600])]);
    let (mut st, step) = svc.start_fetch("/static/test.txt", None, NOW);
    match step {
        FetchStep::FetchOrigin { route_index, origin_index, relative_path } => {
            assert_eq!(route_index, 0);
            assert_eq!(origin_index, 0);
            assert_eq!(relative_path, "/test.txt");
        }
        _ => panic!("expected an origin fetch"),
    }
    match svc.on_origin_result(&mut st, Ok(origin_response("Hello")), NOW) {
        FetchStep::Done(FetchResult::Fresh(c)) => {
            assert_eq!(c.body, b"Hello".to_vec());
            assert_eq!(c.etag, generate_etag(b"Hello"));
        }
        _ => panic!("expected a fresh response"),
    }
    let (_, step) = svc.start_fetch("/static/test.txt", None, NOW);
    match step {
        FetchStep::Done(FetchResult::Cached(c)) => assert_eq!(c.body, b"Hello".to_vec()),
        _ => panic!("expected a cache hit"),
    }
}

#[test]
fn revalidation_gives_not_modified() {
    let mut svc = service(vec![route("/static", &[3600])]);
    let (mut st, _) = svc.start_fetch("/static/etag-test.txt", None, NOW);
    let etag = match svc.on_origin_result(&mut st, Ok(origin_response("ETag Test Content")), NOW) {
        FetchStep::Done(FetchResult::Fresh(c)) => c.etag,
        _ => panic!("expected a fresh response"),
    };
    let quoted = format!("\"{}\"", etag);
    let (_, step) = svc.start_fetch("/static/etag-test.txt", Some(&quoted), NOW);
    assert!(matches!(step, FetchStep::Done(FetchResult::NotModified)));
}

#[test]
fn fresh_fetch_with_matching_tag_is_not_modified() {
    let mut svc = service(vec![route("/", &[0])]);
    let tag = generate_etag(b"x");
    let (mut st, _) = svc.start_fetch("/x", Some(&tag), NOW);
    let step = svc.on_origin_result(&mut st, Ok(origin_response("x")), NOW);
    assert!(matches!(step, FetchStep::Done(FetchResult::NotModified)));
}

#[test]
fn no_route_is_not_found() {
    let mut svc = service(vec![route("/static", &[3600])]);
    let (_, step) = svc.start_fetch("/unknown/path", None, NOW);
    match step {
        FetchStep::Done(FetchResult::NotFound(m)) => assert_eq!(m, "No matching route for /unknown/path"),
        _ => panic!("expected not found"),
    }
}

#[test]
fn fallback_to_next_origin() {
    let mut svc = service(vec![route("/static", &[86400, 3600])]);
    let (mut st, _) = svc.start_fetch("/static/foo.txt", None, NOW);
    let step = svc.on_origin_result(&mut st, Err("File not found: /foo.txt".to_string()), NOW);
    match step {
        FetchStep::FetchOrigin { route_index, origin_index, relative_path } => {
            assert_eq!(route_index, 0);
            assert_eq!(origin_index, 1);
            assert_eq!(relative_path, "/foo.txt");
        }
        _ => panic!("expected the second origin"),
    }
    let step = svc.on_origin_result(&mut st, Ok(origin_response("remote")), NOW);
    assert!(matches!(step, FetchStep::Done(FetchResult::Fresh(_))));
}

#[test]
fn all_origins_fail_gives_last_error() {
    let mut svc = service(vec![route("/static", &[1, 1])]);
    let (mut st, _) = svc.start_fetch("/static/a", None, NOW);
    let _ = svc.on_origin_result(&mut st, Err("first".to_string()), NOW);
    let step = svc.on_origin_result(&mut st, Err("second".to_string()), NOW);
    match step {
        FetchStep::Done(FetchResult::NotFound(m)) => assert_eq!(m, "second"),
        _ => panic!("expected not found"),
    }
}

#[test]
fn route_without_origins_is_not_found_with_empty_reason() {
    let mut svc = service(vec![route("/empty", &[])]);
    let (_, step) = svc.start_fetch("/empty/x", None, NOW);
    match step {
        FetchStep::Done(FetchResult::NotFound(m)) => assert_eq!(m, ""),
        _ => panic!("expected not found"),
    }
}

#[test]
fn empty_relative_path_becomes_root() {
    let mut svc = service(vec![route("/static", &[1])]);
    let (_, step) = svc.start_fetch("/static", None, NOW);
    match step {
        FetchStep::FetchOrigin { relative_path, .. } => assert_eq!(relative_path, "/"),
        _ => panic!("expected an origin fetch"),
    }
}

#[test]
fn zero_ttl_is_not_cached() {
    let mut svc = service(vec![route("/api", &[0])]);
    let (mut st, _) = svc.start_fetch("/api/x", None, NOW);
    let _ = svc.on_origin_result(&mut st, Ok(origin_response("data")), NOW);
    let (_, step) = svc.start_fetch("/api/x", None, NOW);
    assert!(matches!(step, FetchStep::FetchOrigin { .. }));
}

#[test]
fn stale_state_ends_not_found() {
    let mut svc = service(vec![route("/a", &[1])]);
    let (mut st, _) = svc.start_fetch("/a/b", None, NOW);
    st.route_index = 7;
    st.last_error = "gone".to_string();
    match svc.on_origin_result(&mut st, Ok(origin_response("x")), NOW) {
        FetchStep::Done(FetchResult::NotFound(m)) => assert_eq!(m, "gone"),
        _ => panic!("expected not found"),
    }
}

#[test]
fn build_router_groups_by_path_in_order() {
    let configs = vec![
        OriginConfig::Local { path: "/static".to_string(), root: "./public".to_string(), cache_ttl: 86400 },
        OriginConfig::Remote { path: "/api".to_string(), url: "http://backend:3000".to_string(), cache_ttl: 0 },
        OriginConfig::Remote { path: "/static".to_string(), url: "https://cdn.example.com".to_string(), cache_ttl: 3600 },
    ];
    let router = build_router(&configs);
    assert_eq!(router.len(), 2);
    let first = router.route(0);
    assert_eq!(first.path_prefix, "/static");
    assert_eq!(first.origins.len(), 2);
    assert_eq!(first.origins[0].origin, 0);
    assert_eq!(first.origins[0].cache_ttl, 86400);
    assert_eq!(first.origins[1].origin, 2);
    assert_eq!(first.origins[1].cache_ttl, 3600);
    let second = router.route(1);
    assert_eq!(second.path_prefix, "/api");
    assert_eq!(second.origins.len(), 1);
    assert_eq!(second.origins[0].origin, 1);
    assert_eq!(second.origins[0].cache_ttl, 0);
}

#[test]
fn build_router_of_nothing_is_empty() {
    let router = build_router(&Vec::new());
    assert_eq!(router.len(), 0);
}

#[test]
fn test_post_to_local_origin_fails() {
    let mut svc = service(vec![route("/static", &[3600])]);
    let (mut st, step) = svc.start_fetch("/static/test.txt", None, NOW);
    assert!(matches!(step, FetchStep::FetchOrigin { .. }));
    // The local origin refuses the method; with no other origin the request is not found.
    let refusal = LocalOrigin::check_method("POST").unwrap_err();
    let result = match svc.on_origin_result(&mut st, Err(refusal), NOW) {
        FetchStep::Done(r) => r,
        _ => panic!("expected an answer"),
    };
    match &result {
        FetchResult::NotFound(m) => assert_eq!(m, "Method not allowed: POST"),
        _ => panic!("expected not found"),
    }
    let response = response_for("/static/test.txt", result);
    assert_eq!(response.status, 404);
}

#[test]
fn local_origin_serves_reads_only() {
    assert!(LocalOrigin::check_method("GET").is_ok());
    assert!(LocalOrigin::check_method("HEAD").is_ok());
    assert_eq!(LocalOrigin::check_method("POST"), Err("Method not allowed: POST".to_string()));
    assert_eq!(LocalOrigin::check_method("get"), Err("Method not allowed: get".to_string()));
    assert_eq!(LocalOrigin::check_method("DELETE"), Err("Method not allowed: DELETE".to_string()));
}

#[test]
fn refused_origin_falls_back_to_the_next() {
    let mut svc = service(vec![route("/static", &[3600, 3600])]);
    let (mut st, _) = svc.start_fetch("/static/a", None, NOW);
    let refusal = LocalOrigin::check_method("PUT").unwrap_err();
    let step = svc.on_origin_result(&mut st, Err(refusal), NOW);
    assert!(matches!(step, FetchStep::FetchOrigin { origin_index: 1, .. }));
}

#[test]
fn cached_response_answers_any_method() {
    let mut svc = service(vec![route("/static", &[3600])]);
    let (mut st, _) = svc.start_fetch("/static/a", None, NOW);
    let _ = svc.on_origin_result(&mut st, Ok(origin_response("a")), NOW);
    let (_, step) = svc.start_fetch("/static/a", None, NOW + 1);
    match step {
        FetchStep::Done(FetchResult::Cached(c)) => {
            assert_eq!(c.body, b"a".to_vec());
            assert_eq!(c.etag, generate_etag(b"a"));
            assert_eq!(c.content_type, "text/plain");
        }
        _ => panic!("expected a cache hit"),
    }
}

#[test]
fn fallback_caches_under_the_request_path() {
    let mut svc = service(vec![route("/static", &[3600, 3600])]);
    let (mut st, _) = svc.start_fetch("/static/foo.txt", None, NOW);
    let _ = svc.on_origin_result(&mut st, Err("boom".to_string()), NOW);
    let _ = svc.on_origin_result(&mut st, Ok(origin_response("hello")), NOW);
    let held = svc.cache.get("/static/foo.txt", NOW).expect("the response is cached");
    assert_eq!(held.body, b"hello".to_vec());
    assert!(svc.cache.get("/foo.txt", NOW).is_none());
}

#[test]
fn cached_response_expires_with_origin_ttl() {
    let mut svc = service(vec![route("/static", &[5])]);
    let (mut st, _) = svc.start_fetch("/static/a", None, NOW);
    let _ = svc.on_origin_result(&mut st, Ok(origin_response("a")), NOW);
    let (_, step) = svc.start_fetch("/static/a", None, NOW + 4);
    assert!(matches!(step, FetchStep::Done(FetchResult::Cached(_))));
    let (_, step) = svc.start_fetch("/static/a", None, NOW + 5);
    assert!(matches!(step, FetchStep::FetchOrigin { .. }));
}
