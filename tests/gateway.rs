use gateway_core::gateway::{
    attach_auth, fail_to_proxy, finish_request, peer_endpoint, rewrite_request, AuthFailure,
    PeerError,
    SvcAuthMethod, UriParts, health_response, preflight_response, resolve_upstream,
    response_filter, upstream_target_from_parts, ApiError, AuthOutcome, CallMeta, EarlyAction,
    FailureKind, FailureSource, Gateway, GatewayCtx, GatewayError, PeerChoice,
};
use gateway_core::router::{AddRouteError, Method, RouteError};

fn services() -> Vec<(String, Vec<(Method, String)>)> {
    vec![
        (
            "widgets".to_string(),
            vec![
                (Method::Get, "/widgets/:id".to_string()),
                (Method::Post, "/widgets".to_string()),
            ],
        ),
        ("users".to_string(), vec![(Method::Get, "/users/me".to_string())]),
    ]
}

fn gateway(own_api: bool) -> Gateway {
    match Gateway::new("api-gateway".to_string(), &services(), own_api) {
        Ok(g) => g,
        Err(_) => panic!("routes conflict"),
    }
}

fn ctx(base: &str) -> GatewayCtx {
    GatewayCtx {
        upstream_service_name: "widgets".to_string(),
        upstream_base_path: base.to_string(),
        upstream_host: Some("widgets.internal".to_string()),
    }
}

#[test]
fn new_refuses_conflicting_services() {
    let mut s = services();
    s.push(("other".to_string(), vec![(Method::Get, "/widgets/:x".to_string())]));
    assert_eq!(
        Gateway::new("gw".to_string(), &s, false).err(),
        Some(AddRouteError::Duplicate(0))
    );
}

#[test]
fn health_check_is_intercepted_for_every_method() {
    let g = gateway(false);
    for m in ["GET", "POST", "OPTIONS", "DELETE", "BREW"] {
        assert_eq!(
            g.request_filter(m.as_bytes(), "/__encore/healthz"),
            EarlyAction::HealthCheck
        );
    }
    let h = health_response(b"{\"ok\":true}".to_vec());
    assert_eq!(h.status, 200);
    assert_eq!(h.body, Some(b"{\"ok\":true}".to_vec()));
    assert!(h.json);
}

#[test]
fn options_is_answered_as_preflight() {
    let g = gateway(false);
    for p in ["/widgets/1", "/unknown", "/"] {
        assert_eq!(g.request_filter(b"OPTIONS", p), EarlyAction::Preflight);
    }
    assert_eq!(g.request_filter(b"GET", "/widgets/1"), EarlyAction::Proceed);
    let r = preflight_response();
    assert_eq!(r.status, 200);
    assert_eq!(r.body, Some(Vec::new()));
    assert!(r.cors);
}

#[test]
fn peer_selection_routes_to_owning_service() {
    let g = gateway(false);
    match g.upstream_peer(b"GET", "/widgets/7") {
        Ok(PeerChoice::Service(s)) => assert_eq!(s, "widgets"),
        _ => panic!("expected a service"),
    }
    match g.upstream_peer(b"GET", "/users/me") {
        Ok(PeerChoice::Service(s)) => assert_eq!(s, "users"),
        _ => panic!("expected a service"),
    }
    assert_eq!(
        g.upstream_peer(b"GET", "/nothing").err(),
        Some(GatewayError::Routing(RouteError::NotFound))
    );
    assert_eq!(
        g.upstream_peer(b"PUT", "/widgets").err(),
        Some(GatewayError::Routing(RouteError::MethodNotAllowed))
    );
    assert_eq!(g.upstream_peer(b"BREW", "/widgets").err(), Some(GatewayError::InvalidMethod));
}

#[test]
fn internal_paths_shortcut_only_with_own_address() {
    let g = gateway(true);
    assert!(matches!(g.upstream_peer(b"GET", "/__encore/x"), Ok(PeerChoice::OwnApi)));
    assert!(matches!(g.upstream_peer(b"BREW", "/__encore/x"), Ok(PeerChoice::OwnApi)));
    let g = gateway(false);
    assert_eq!(
        g.upstream_peer(b"GET", "/__encore/x").err(),
        Some(GatewayError::Routing(RouteError::NotFound))
    );
}

#[test]
fn error_statuses() {
    assert_eq!(GatewayError::InvalidMethod.status(), 400);
    assert_eq!(GatewayError::Routing(RouteError::NotFound).status(), 404);
    assert_eq!(GatewayError::Routing(RouteError::MethodNotAllowed).status(), 405);
    assert_eq!(GatewayError::NoUpstream.status(), 500);
    assert_eq!(GatewayError::InvalidUpstreamUrl.status(), 500);
}

#[test]
fn base_path_is_prepended() {
    assert_eq!(ctx("/api/").prepend_base_path(b"/widgets/1"), b"/api/widgets/1".to_vec());
    assert_eq!(
        ctx("/api//").prepend_base_path(b"/widgets/1?q=2&r"),
        b"/api/widgets/1?q=2&r".to_vec()
    );
    assert_eq!(ctx("/").prepend_base_path(b"/widgets"), b"/widgets".to_vec());
}

#[test]
fn upstream_resolution_reads_the_base_url() {
    let (t, c) = resolve_upstream(
        "widgets".to_string(),
        Some("https://widgets.internal:8443/api/".to_string()),
    )
    .ok()
    .unwrap();
    assert!(t.tls);
    assert_eq!(t.port, Some(8443));
    assert_eq!(t.host, Some("widgets.internal".to_string()));
    assert_eq!(t.base_path, "/api/");
    assert_eq!(c.upstream_service_name, "widgets");
    assert_eq!(c.upstream_base_path, "/api/");
    assert_eq!(c.upstream_host, Some("widgets.internal".to_string()));

    let (t, c) = resolve_upstream("u".to_string(), Some("http://127.0.0.1".to_string()))
        .ok()
        .unwrap();
    assert!(!t.tls);
    assert_eq!(t.port, Some(80));
    assert_eq!(t.base_path, "/");
    assert_eq!(c.upstream_host, Some("127.0.0.1".to_string()));
}

#[test]
fn upstream_resolution_uses_scheme_default_port() {
    let (t, _) = resolve_upstream("u".to_string(), Some("https://svc.internal/".to_string()))
        .ok()
        .unwrap();
    assert_eq!(t.port, Some(443));
}

#[test]
fn upstream_resolution_failures() {
    assert_eq!(
        resolve_upstream("u".to_string(), None).err(),
        Some(GatewayError::NoUpstream)
    );
    assert_eq!(
        resolve_upstream("u".to_string(), Some("not a url".to_string())).err(),
        Some(GatewayError::InvalidUpstreamUrl)
    );
}

#[test]
fn other_schemes_have_no_default_port() {
    let t = upstream_target_from_parts("foo".to_string(), None, "/".to_string(), None);
    assert!(!t.tls);
    assert_eq!(t.port, None);
    let t = upstream_target_from_parts("https".to_string(), None, "/".to_string(), None);
    assert!(t.tls);
    assert_eq!(t.port, Some(443));
    let t = upstream_target_from_parts("http".to_string(), None, "/".to_string(), Some(8080));
    assert!(!t.tls);
    assert_eq!(t.port, Some(8080));
}

#[test]
fn parent_span_is_kept_or_generated() {
    let g = gateway(false);
    let d = g.describe_call(
        CallMeta { trace_id: 9, parent_span_id: None, ext_correlation_id: None },
        77,
        None,
    );
    assert_eq!(d.parent_span, (9, 77));
    assert_eq!(d.caller_gateway, "api-gateway");
    let d = g.describe_call(
        CallMeta {
            trace_id: 9,
            parent_span_id: Some(5),
            ext_correlation_id: Some("corr".to_string()),
        },
        77,
        None,
    );
    assert_eq!(d.parent_span, (9, 5));
    assert_eq!(d.ext_correlation_id, Some("corr".to_string()));
    assert_eq!(d.auth_user_id, None);
    assert_eq!(d.svc_auth_method, SvcAuthMethod::Noop);
}

#[test]
fn authentication_is_attached_when_present() {
    let g = gateway(false);
    let mut d = g.describe_call(
        CallMeta { trace_id: 1, parent_span_id: Some(2), ext_correlation_id: None },
        3,
        Some(SvcAuthMethod::Configured(2)),
    );
    attach_auth(&mut d, AuthOutcome::Anonymous);
    assert_eq!(d.auth_user_id, None);
    attach_auth(
        &mut d,
        AuthOutcome::Authenticated { user_id: "u1".to_string(), data: b"{}".to_vec() },
    );
    assert_eq!(d.auth_user_id, Some("u1".to_string()));
    assert_eq!(d.auth_data, Some(b"{}".to_vec()));
    assert_eq!(d.parent_span, (1, 2));
    assert_eq!(d.svc_auth_method, SvcAuthMethod::Configured(2));
}

#[test]
fn structured_error_renders_its_status_and_body() {
    let body = br#"{"code":"not_found"}"#.to_vec();
    let out = fail_to_proxy(
        FailureKind::HttpStatus(404),
        FailureSource::Upstream,
        Some(ApiError { status: 404, body: body.clone() }),
    );
    assert_eq!(out.code, 404);
    let resp = out.response.unwrap();
    assert_eq!(resp.status, 404);
    assert_eq!(resp.body, Some(body));
    assert!(resp.json && resp.no_store && resp.cors && !resp.keep_alive);
    assert!(resp.server_headers);
    assert_eq!(resp.content_length, Some(20));
}

#[test]
fn structured_error_code_is_the_rendered_status() {
    let out = fail_to_proxy(
        FailureKind::Other,
        FailureSource::Internal,
        Some(ApiError { status: 404, body: b"{}".to_vec() }),
    );
    assert_eq!(out.code, 404);
    assert_eq!(out.response.unwrap().status, 404);
    let out = fail_to_proxy(
        FailureKind::WriteError,
        FailureSource::Downstream,
        Some(ApiError { status: 404, body: b"{}".to_vec() }),
    );
    assert_eq!(out.code, 0);
    assert!(out.response.is_none());
}

#[test]
fn request_rewrite_keeps_scheme_and_authority_and_sets_host() {
    let uri = || UriParts {
        scheme: Some("http".to_string()),
        authority: Some("gw.example.com".to_string()),
        path_and_query: b"/widgets/1?x=2".to_vec(),
    };
    let w = rewrite_request(&Some(ctx("/api/")), uri(), true).unwrap();
    assert_eq!(w.uri.scheme, Some("http".to_string()));
    assert_eq!(w.uri.authority, Some("gw.example.com".to_string()));
    assert_eq!(w.uri.path_and_query, b"/api/widgets/1?x=2".to_vec());
    assert_eq!(w.host, Some("widgets.internal".to_string()));
    assert!(w.unpack_websocket);
    let w = rewrite_request(&Some(ctx("/")), uri(), false).unwrap();
    assert!(!w.unpack_websocket);
    assert!(rewrite_request(&None, uri(), true).is_none());
}

#[test]
fn peer_endpoint_needs_host_and_port() {
    let (t, _) = resolve_upstream("u".to_string(), Some("http://svc.internal:81/".to_string()))
        .ok()
        .unwrap();
    assert_eq!(peer_endpoint(&t), Ok(("svc.internal".to_string(), 81)));
    let t = upstream_target_from_parts("foo".to_string(), Some("h".to_string()), "/".to_string(), None);
    assert_eq!(peer_endpoint(&t), Err(PeerError::NoPort));
    let t = upstream_target_from_parts("http".to_string(), None, "/".to_string(), None);
    assert_eq!(peer_endpoint(&t), Err(PeerError::NoHost));
    assert_eq!(PeerError::NoHost.status(), 500);
}

#[test]
fn upstream_failure_is_bad_gateway() {
    for k in [FailureKind::ConnectionClosed, FailureKind::ReadError, FailureKind::Other] {
        let out = fail_to_proxy(k, FailureSource::Upstream, None);
        assert_eq!(out.code, 502);
        let resp = out.response.unwrap();
        assert_eq!(resp.status, 502);
        assert_eq!(resp.body, None);
        assert!(resp.cors && !resp.keep_alive);
    }
}

#[test]
fn dead_downstream_gets_no_response() {
    for k in [FailureKind::WriteError, FailureKind::ReadError, FailureKind::ConnectionClosed] {
        let out = fail_to_proxy(k, FailureSource::Downstream, None);
        assert_eq!(out.code, 0);
        assert!(out.response.is_none());
    }
}

#[test]
fn other_failures_are_classified() {
    assert_eq!(fail_to_proxy(FailureKind::Other, FailureSource::Downstream, None).code, 400);
    assert_eq!(fail_to_proxy(FailureKind::Other, FailureSource::Internal, None).code, 500);
    assert_eq!(fail_to_proxy(FailureKind::WriteError, FailureSource::Unset, None).code, 500);
    assert_eq!(
        fail_to_proxy(FailureKind::HttpStatus(418), FailureSource::Downstream, None).code,
        418
    );
}

#[test]
fn cors_only_for_routed_responses() {
    assert!(response_filter(&Some(ctx("/"))));
    assert!(!response_filter(&None));
}

#[test]
fn request_filter_prepares_rewrite_and_call() {
    let g = gateway(false);
    let uri = || UriParts {
        scheme: None,
        authority: None,
        path_and_query: b"/widgets/1".to_vec(),
    };
    let meta = || CallMeta { trace_id: 4, parent_span_id: None, ext_correlation_id: None };
    let token = b"chat, encore.dev.auth_data.!!".to_vec();

    let p = g
        .upstream_request_filter(&Some(ctx("/api/")), uri(), false, &vec![token.clone()], meta(), 8, None)
        .ok()
        .unwrap()
        .unwrap();
    assert_eq!(p.rewrite.uri.path_and_query, b"/api/widgets/1".to_vec());
    assert_eq!(p.rewrite.host, Some("widgets.internal".to_string()));
    assert!(p.websocket.is_none());
    assert_eq!(p.call.caller_gateway, "api-gateway");
    assert_eq!(p.call.parent_span, (4, 8));
    assert_eq!(p.call.auth_user_id, None);
    assert_eq!(p.call.svc_auth_method, SvcAuthMethod::Noop);

    let r = g.upstream_request_filter(&Some(ctx("/")), uri(), true, &vec![token], meta(), 8, None);
    assert_eq!(r.err(), Some(gateway_core::smuggle::SmuggleError::BadBase64));

    let p = g
        .upstream_request_filter(
            &Some(ctx("/")),
            uri(),
            true,
            &vec![b"chat".to_vec()],
            meta(),
            8,
            Some(SvcAuthMethod::Configured(1)),
        )
        .ok()
        .unwrap()
        .unwrap();
    assert_eq!(p.websocket.unwrap().protocols, vec![b"chat".to_vec()]);
    assert_eq!(p.call.svc_auth_method, SvcAuthMethod::Configured(1));

    assert!(matches!(
        g.upstream_request_filter(&None, uri(), true, &vec![], meta(), 8, None),
        Ok(None)
    ));
}

#[test]
fn finish_request_attaches_identity_or_fails() {
    let g = gateway(false);
    let desc = || {
        g.describe_call(
            CallMeta { trace_id: 1, parent_span_id: Some(2), ext_correlation_id: None },
            3,
            None,
        )
    };
    let d = finish_request(desc(), None).ok().unwrap();
    assert_eq!(d.auth_user_id, None);
    let d = finish_request(desc(), Some(Ok(AuthOutcome::Anonymous))).ok().unwrap();
    assert_eq!(d.auth_user_id, None);
    let d = finish_request(
        desc(),
        Some(Ok(AuthOutcome::Authenticated { user_id: "u".to_string(), data: vec![1] })),
    )
    .ok()
    .unwrap();
    assert_eq!(d.auth_user_id, Some("u".to_string()));
    assert_eq!(d.auth_data, Some(vec![1]));
    assert_eq!(d.parent_span, (1, 2));
    assert_eq!(finish_request(desc(), Some(Err(AuthFailure::Internal))).err(), Some(500));
    assert_eq!(finish_request(desc(), Some(Err(AuthFailure::ClientFault))).err(), Some(400));
}
