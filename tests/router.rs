use gateway_core::router::{AddRouteError, Method, RouteError, Router};

fn routes(list: &[(Method, &str)]) -> Vec<(Method, String)> {
    list.iter().map(|(m, p)| (*m, p.to_string())).collect()
}

#[test]
fn registered_literal_route_goes_to_its_service() {
    let mut r = Router::new();
    r.add_routes(&"widgets".to_string(), &routes(&[(Method::Get, "/widgets/list")]))
        .unwrap();
    r.add_routes(&"users".to_string(), &routes(&[(Method::Get, "/users/me")]))
        .unwrap();
    assert_eq!(r.route(Method::Get, "/widgets/list"), Ok("widgets".to_string()));
    assert_eq!(r.route(Method::Get, "/users/me"), Ok("users".to_string()));
}

#[test]
fn parameter_segment_matches_any_non_empty_segment() {
    let mut r = Router::new();
    r.add_routes(&"widgets".to_string(), &routes(&[(Method::Get, "/widgets/:id")]))
        .unwrap();
    assert_eq!(r.route(Method::Get, "/widgets/42"), Ok("widgets".to_string()));
    assert_eq!(r.route(Method::Get, "/widgets/"), Err(RouteError::NotFound));
    assert_eq!(r.route(Method::Get, "/widgets/1/2"), Err(RouteError::NotFound));
}

#[test]
fn literal_segment_wins_over_parameter() {
    let mut r = Router::new();
    r.add_routes(&"params".to_string(), &routes(&[(Method::Get, "/a/:x")]))
        .unwrap();
    r.add_routes(&"literal".to_string(), &routes(&[(Method::Get, "/a/b")]))
        .unwrap();
    assert_eq!(r.route(Method::Get, "/a/b"), Ok("literal".to_string()));
    assert_eq!(r.route(Method::Get, "/a/c"), Ok("params".to_string()));
}

#[test]
fn earlier_literal_position_decides() {
    let mut r = Router::new();
    r.add_routes(&"first".to_string(), &routes(&[(Method::Post, "/:x/b")]))
        .unwrap();
    r.add_routes(&"second".to_string(), &routes(&[(Method::Post, "/a/:y")]))
        .unwrap();
    assert_eq!(r.route(Method::Post, "/a/b"), Ok("second".to_string()));
}

#[test]
fn unregistered_path_is_not_found() {
    let mut r = Router::new();
    r.add_routes(&"widgets".to_string(), &routes(&[(Method::Get, "/widgets")]))
        .unwrap();
    assert_eq!(r.route(Method::Get, "/gadgets"), Err(RouteError::NotFound));
    assert_eq!(Router::new().route(Method::Get, "/"), Err(RouteError::NotFound));
}

#[test]
fn wrong_method_is_not_allowed() {
    let mut r = Router::new();
    r.add_routes(&"widgets".to_string(), &routes(&[(Method::Get, "/widgets")]))
        .unwrap();
    assert_eq!(r.route(Method::Delete, "/widgets"), Err(RouteError::MethodNotAllowed));
}

#[test]
fn duplicate_route_is_refused_and_nothing_added() {
    let mut r = Router::new();
    r.add_routes(&"a".to_string(), &routes(&[(Method::Get, "/x/:id")]))
        .unwrap();
    let res = r.add_routes(
        &"b".to_string(),
        &routes(&[(Method::Get, "/y"), (Method::Get, "/x/:other")]),
    );
    assert_eq!(res, Err(AddRouteError::Duplicate(1)));
    assert_eq!(r.route(Method::Get, "/y"), Err(RouteError::NotFound));
    let res = r.add_routes(
        &"c".to_string(),
        &routes(&[(Method::Put, "/z"), (Method::Put, "/z")]),
    );
    assert_eq!(res, Err(AddRouteError::Duplicate(1)));
}

#[test]
fn same_pattern_with_other_method_is_accepted() {
    let mut r = Router::new();
    r.add_routes(&"a".to_string(), &routes(&[(Method::Get, "/x")])).unwrap();
    r.add_routes(&"b".to_string(), &routes(&[(Method::Post, "/x")])).unwrap();
    assert_eq!(r.route(Method::Post, "/x"), Ok("b".to_string()));
    assert_eq!(r.route(Method::Get, "/x"), Ok("a".to_string()));
}

#[test]
fn method_tokens_parse() {
    assert_eq!(Method::parse(b"GET"), Some(Method::Get));
    assert_eq!(Method::parse(b"OPTIONS"), Some(Method::Options));
    assert_eq!(Method::parse(b"PATCH"), Some(Method::Patch));
    assert_eq!(Method::parse(b"get"), None);
    assert_eq!(Method::parse(b"BREW"), None);
}
