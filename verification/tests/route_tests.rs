use fastcache::route::{OriginEntry, Route, Router};

fn create_route(path: &str, name: &str) -> Route<String> {
    Route {
        path_prefix: path.to_string(),
        origins: vec![OriginEntry {
            origin: name.to_string(),
            cache_ttl: 3600,
        }],
    }
}

#[test]
fn test_exact_path_match() {
    let routes = vec![create_route("/static", "static-origin")];
    let router = Router::new(routes);

    let result = router.match_route("/static/file.txt");
    assert!(result.is_some());
    let (route, relative) = result.unwrap();
    assert_eq!(route.path_prefix, "/static");
    assert_eq!(relative, "/file.txt");
}

#[test]
fn test_longest_prefix_match() {
    let routes = vec![
        create_route("/api", "api-origin"),
        create_route("/api/v2", "api-v2-origin"),
    ];
    let router = Router::new(routes);

    let result = router.match_route("/api/v2/users");
    assert!(result.is_some());
    let (route, relative) = result.unwrap();
    assert_eq!(route.path_prefix, "/api/v2");
    assert_eq!(relative, "/users");

    let result = router.match_route("/api/v1/users");
    assert!(result.is_some());
    let (route, relative) = result.unwrap();
    assert_eq!(route.path_prefix, "/api");
    assert_eq!(relative, "/v1/users");
}

#[test]
fn test_root_path_match() {
    let routes = vec![
        create_route("/static", "static-origin"),
        create_route("/", "root-origin"),
    ];
    let router = Router::new(routes);

    let result = router.match_route("/static/file.txt");
    assert!(result.is_some());
    let (route, _) = result.unwrap();
    assert_eq!(route.path_prefix, "/static");

    let result = router.match_route("/other/path");
    assert!(result.is_some());
    let (route, relative) = result.unwrap();
    assert_eq!(route.path_prefix, "/");
    assert_eq!(relative, "/other/path");
}

#[test]
fn test_no_match() {
    let routes = vec![create_route("/static", "static-origin")];
    let router = Router::new(routes);

    let result = router.match_route("/api/endpoint");
    assert!(result.is_none());
}

#[test]
fn test_empty_relative_path() {
    let routes = vec![create_route("/static", "static-origin")];
    let router = Router::new(routes);

    let result = router.match_route("/static");
    assert!(result.is_some());
    let (_, relative) = result.unwrap();
    assert_eq!(relative, "");
}

#[test]
fn test_routes_sorted_by_length() {
    let routes = vec![
        create_route("/a", "short"),
        create_route("/a/b/c", "long"),
        create_route("/a/b", "medium"),
    ];
    let router = Router::new(routes);

    let result = router.match_route("/a/b/c/d");
    assert!(result.is_some());
    let (route, _) = result.unwrap();
    assert_eq!(route.path_prefix, "/a/b/c");
}

#[test]
fn router_keeps_configured_order_for_equal_lengths() {
    let routes = vec![
        create_route("/b", "first"),
        create_route("/long", "long"),
        create_route("/a", "second"),
    ];
    let router = Router::new(routes);
    assert_eq!(router.len(), 3);
    assert_eq!(router.route(0).path_prefix, "/long");
    assert_eq!(router.route(1).path_prefix, "/b");
    assert_eq!(router.route(2).path_prefix, "/a");
}

#[test]
fn router_orders_by_bytes_not_characters() {
    // "/é" is 3 bytes long, "/ab" is 3 bytes long too, "/a" is 2.
    let routes = vec![create_route("/a", "a"), create_route("/é", "e"), create_route("/ab", "ab")];
    let router = Router::new(routes);
    assert_eq!(router.route(0).path_prefix, "/é");
    assert_eq!(router.route(1).path_prefix, "/ab");
    assert_eq!(router.route(2).path_prefix, "/a");
}

#[test]
fn prefix_match_is_by_characters_not_segments() {
    let router = Router::new(vec![create_route("/api", "api")]);
    let (route, relative) = router.match_route("/apiary").unwrap();
    assert_eq!(route.path_prefix, "/api");
    assert_eq!(relative, "ary");
    assert_eq!(router.match_index("/ap"), None);
}

#[test]
fn empty_router_matches_nothing() {
    let router: Router<String> = Router::new(Vec::new());
    assert!(router.match_route("/").is_none());
    assert_eq!(router.len(), 0);
}
