//! The per-request decisions of the gateway across the proxy lifecycle:
//! early interception, peer selection, request rewriting, response rewriting
//! and failure rendering.
use vstd::prelude::*;

use crate::bytes::{bytes_eq, starts_with};
use crate::smuggle::{
    headers_view, update_request_from_websocket_protocol, values_spec, values_view, HeaderView,
    SmuggleError, WsRewrite,
};
use crate::router::{
    batch_view, bytes_of, method_of, route_spec, table_wf, AddRouteError, Method, RouteError,
    RouteView, Router,
};

verus! {

/// The path of the health check that the gateway answers itself:
/// `/__encore/healthz` in ASCII.
pub open spec fn healthz_path() -> Seq<u8> {
    seq![
        47u8, 95u8, 95u8, 101u8, 110u8, 99u8, 111u8, 114u8, 101u8, 47u8, 104u8, 101u8, 97u8,
        108u8, 116u8, 104u8, 122u8,
    ]
}

/// The prefix of the paths served in-process: `/__encore/` in ASCII.
pub open spec fn internal_prefix() -> Seq<u8> {
    seq![47u8, 95u8, 95u8, 101u8, 110u8, 99u8, 111u8, 114u8, 101u8, 47u8]
}

/// `OPTIONS` in ASCII.
pub open spec fn options_token() -> Seq<u8> {
    seq![79u8, 80u8, 84u8, 73u8, 79u8, 78u8, 83u8]
}

/// `https` in ASCII.
pub open spec fn https_scheme() -> Seq<u8> {
    seq![104u8, 116u8, 116u8, 112u8, 115u8]
}

/// `http` in ASCII.
pub open spec fn http_scheme() -> Seq<u8> {
    seq![104u8, 116u8, 116u8, 112u8]
}

/// What the gateway does with a request before any routing.
#[derive(Clone, Copy, PartialEq, Eq, Debug, Structural)]
pub enum EarlyAction {
    /// Answer the health check directly.
    HealthCheck,
    /// Answer the CORS preflight directly.
    Preflight,
    /// Go on to peer selection.
    Proceed,
}

pub open spec fn early_spec(method: Seq<u8>, path: Seq<u8>) -> EarlyAction {
    if path == healthz_path() {
        EarlyAction::HealthCheck
    } else if method == options_token() {
        EarlyAction::Preflight
    } else {
        EarlyAction::Proceed
    }
}

/// A response that the gateway renders itself.
pub struct ResponsePlan {
    pub status: u16,
    /// The body; `None` for the engine's stock page of the status.
    pub body: Option<Vec<u8>>,
    /// Whether the body is JSON (`Content-Type: application/json`).
    pub json: bool,
    /// Whether the response forbids caching (`Cache-Control: private, no-store`).
    pub no_store: bool,
    /// Whether the CORS policy is applied to the response headers.
    pub cors: bool,
    /// Whether the connection may be kept alive afterwards.
    pub keep_alive: bool,
    /// The `Content-Length` header, where the gateway sets it.
    pub content_length: Option<usize>,
    /// Whether the engine's `Server` header and a `Date` header are set.
    pub server_headers: bool,
}

/// The health-check response, with the health status already encoded as JSON.
pub fn health_response(body: Vec<u8>) -> (r: ResponsePlan)
    ensures
        r.status == 200,
        r.body == Some(body),
        r.json,
        !r.no_store,
        !r.cors,
        r.keep_alive,
        r.content_length == Some(body@.len() as usize),
        !r.server_headers,
{
    let len = body.len();
    ResponsePlan {
        status: 200,
        body: Some(body),
        json: true,
        no_store: false,
        cors: false,
        keep_alive: true,
        content_length: Some(len),
        server_headers: false,
    }
}

/// The preflight response: status 200, CORS headers, an empty body.
pub fn preflight_response() -> (r: ResponsePlan)
    ensures
        r.status == 200,
        r.body matches Some(b) && b@.len() == 0,
        !r.json,
        !r.no_store,
        r.cors,
        r.keep_alive,
        r.content_length == Some(0usize),
        !r.server_headers,
{
    ResponsePlan {
        status: 200,
        body: Some(Vec::new()),
        json: false,
        no_store: false,
        cors: true,
        keep_alive: true,
        content_length: Some(0),
        server_headers: false,
    }
}

/// The state of one request once its upstream service is resolved.
pub struct GatewayCtx {
    pub upstream_service_name: String,
    pub upstream_base_path: String,
    pub upstream_host: Option<String>,
}

pub open spec fn trim_trailing_slashes(s: Seq<u8>) -> Seq<u8>
    decreases s.len(),
{
    if s.len() > 0 && s.last() == 47u8 {
        trim_trailing_slashes(s.drop_last())
    } else {
        s
    }
}

impl GatewayCtx {
    /// The path and query of the upstream request: the base path of the
    /// service without its trailing slashes, then the inbound path and query
    /// as they are.
    pub fn prepend_base_path(&self, path_and_query: &[u8]) -> (r: Vec<u8>)
        ensures
            r@ == trim_trailing_slashes(bytes_of(self.upstream_base_path@)) + path_and_query@,
    {
        let base = self.upstream_base_path.as_str().as_bytes();
        let mut end: usize = base.len();
        assert(base@.subrange(0, end as int) =~= base@);
        while end > 0 && base[end - 1] == 47u8
            invariant
                end <= base@.len(),
                base@ == bytes_of(self.upstream_base_path@),
                trim_trailing_slashes(base@.subrange(0, end as int)) == trim_trailing_slashes(base@),
            decreases end,
        {
            assert(base@.subrange(0, end as int).drop_last() =~= base@.subrange(0, end - 1));
            end = end - 1;
        }
        let mut out: Vec<u8> = Vec::new();
        let mut i: usize = 0;
        while i < end
            invariant
                end <= base@.len(),
                i <= end,
                out@ == base@.subrange(0, i as int),
            decreases end - i,
        {
            out.push(base[i]);
            i = i + 1;
            assert(out@ =~= base@.subrange(0, i as int));
        }
        let ghost head = out@;
        let mut j: usize = 0;
        while j < path_and_query.len()
            invariant
                j <= path_and_query@.len(),
                out@ == head + path_and_query@.subrange(0, j as int),
            decreases path_and_query@.len() - j,
        {
            out.push(path_and_query[j]);
            j = j + 1;
            assert(out@ =~= head + path_and_query@.subrange(0, j as int));
        }
        assert(path_and_query@.subrange(0, j as int) =~= path_and_query@);
        out
    }
}

/// Why peer selection failed.
#[derive(Clone, Copy, PartialEq, Eq, Debug, Structural)]
pub enum GatewayError {
    /// The request method is not one that routes are declared for.
    InvalidMethod,
    /// No service owns the request.
    Routing(RouteError),
    /// The service registry has no base URL for the service.
    NoUpstream,
    /// The registry's base URL for the service does not parse.
    InvalidUpstreamUrl,
}

impl GatewayError {
    /// The status a failure of peer selection is answered with.
    pub fn status(&self) -> (r: u16)
        ensures
            r == status_of(*self),
    {
        match self {
            GatewayError::InvalidMethod => 400,
            GatewayError::Routing(RouteError::NotFound) => 404,
            GatewayError::Routing(RouteError::MethodNotAllowed) => 405,
            GatewayError::NoUpstream => 500,
            GatewayError::InvalidUpstreamUrl => 500,
        }
    }
}

/// Routing failures are client faults; an upstream that cannot be resolved is
/// a misconfiguration, an internal error.
pub open spec fn status_of(e: GatewayError) -> u16 {
    match e {
        GatewayError::InvalidMethod => 400,
        GatewayError::Routing(RouteError::NotFound) => 404,
        GatewayError::Routing(RouteError::MethodNotAllowed) => 405,
        GatewayError::NoUpstream => 500,
        GatewayError::InvalidUpstreamUrl => 500,
    }
}

/// Where a request goes.
pub enum PeerChoice {
    /// The co-located address that serves the gateway's internal endpoints.
    OwnApi,
    /// The service that owns the request.
    Service(String),
}

pub open spec fn select_spec(routes: Seq<RouteView>, own_api: bool, method: Seq<u8>, path: Seq<u8>) -> Result<
    Option<Seq<char>>,
    GatewayError,
> {
    if own_api && internal_prefix().len() <= path.len() && path.subrange(0, internal_prefix().len() as int)
        == internal_prefix() {
        Ok(None)
    } else {
        match method_of(method) {
            None => Err(GatewayError::InvalidMethod),
            Some(m) => match route_spec(routes, m, path) {
                Ok(s) => Ok(Some(s)),
                Err(e) => Err(GatewayError::Routing(e)),
            },
        }
    }
}

/// The routes that a list of services declares, service by service.
pub open spec fn all_routes(services: Seq<(String, Vec<(Method, String)>)>) -> Seq<RouteView>
    decreases services.len(),
{
    if services.len() == 0 {
        Seq::empty()
    } else {
        all_routes(services.drop_last()) + batch_view(services.last().0@, services.last().1@)
    }
}

proof fn lemma_all_routes_prefix(s: Seq<(String, Vec<(Method, String)>)>, n: int, m: int)
    requires
        0 <= n <= m <= s.len(),
    ensures
        all_routes(s.subrange(0, n)) == all_routes(s.subrange(0, m)).subrange(
            0,
            all_routes(s.subrange(0, n)).len() as int,
        ),
        all_routes(s.subrange(0, n)).len() <= all_routes(s.subrange(0, m)).len(),
    decreases m - n,
{
    if m > n {
        lemma_all_routes_prefix(s, n, m - 1);
        assert(s.subrange(0, m).drop_last() =~= s.subrange(0, m - 1));
        assert(all_routes(s.subrange(0, n)) =~= all_routes(s.subrange(0, m)).subrange(
            0,
            all_routes(s.subrange(0, n)).len() as int,
        ));
    } else {
        assert(all_routes(s.subrange(0, n)) =~= all_routes(s.subrange(0, m)).subrange(
            0,
            all_routes(s.subrange(0, n)).len() as int,
        ));
    }
}

/// The shared, read-only state of the gateway: its name, its routing table,
/// and whether a co-located address serves the internal endpoints.
pub struct Gateway {
    name: String,
    router: Router,
    own_api: bool,
}

impl Gateway {
    pub closed spec fn spec_name(&self) -> Seq<char> {
        self.name@
    }

    pub closed spec fn spec_routes(&self) -> Seq<RouteView> {
        self.router@
    }

    pub closed spec fn spec_own_api(&self) -> bool {
        self.own_api
    }

    pub closed spec fn wf(&self) -> bool {
        self.router.wf()
    }

    /// Builds the gateway with the routes of each service, in order. Fails,
    /// and builds nothing, when two of the routes have the same method and
    /// pattern.
    pub fn new(name: String, service_routes: &Vec<(String, Vec<(Method, String)>)>, own_api: bool) -> (r: Result<
        Gateway,
        AddRouteError,
    >)
        ensures
            r is Ok <==> table_wf(all_routes(service_routes@)),
            r matches Ok(g) ==> {
                &&& g.wf()
                &&& g.spec_name() == name@
                &&& g.spec_routes() == all_routes(service_routes@)
                &&& g.spec_own_api() == own_api
            },
    {
        let ghost sr = service_routes@;
        let mut router = Router::new();
        let mut i: usize = 0;
        assert(sr.subrange(0, 0) =~= Seq::<(String, Vec<(Method, String)>)>::empty());
        while i < service_routes.len()
            invariant
                sr == service_routes@,
                i <= sr.len(),
                router.wf(),
                router@ == all_routes(sr.subrange(0, i as int)),
            decreases sr.len() - i,
        {
            assert(sr.subrange(0, i + 1).drop_last() =~= sr.subrange(0, i as int));
            match router.add_routes(&service_routes[i].0, &service_routes[i].1) {
                Ok(()) => {},
                Err(e) => {
                    proof {
                        let table = all_routes(sr.subrange(0, i as int));
                        let full = all_routes(sr.subrange(0, i + 1));
                        let batch = batch_view(sr[i as int].0@, sr[i as int].1@);
                        assert(full == table + batch);
                        let k = match e {
                            AddRouteError::Duplicate(k) => k as int,
                        };
                        let n = table.len() as int;
                        assert(full[n + k] == batch[k]);
                        if exists|j: int| 0 <= j < table.len() && crate::router::conflicts(#[trigger] table[j], batch[k]) {
                            let j = choose|j: int| 0 <= j < table.len() && crate::router::conflicts(#[trigger] table[j], batch[k]);
                            assert(full[j] == table[j]);
                            assert(!table_wf(full));
                        } else {
                            let j = choose|j: int| 0 <= j < k && crate::router::conflicts(#[trigger] batch[j], batch[k]);
                            assert(full[n + j] == batch[j]);
                            assert(!table_wf(full));
                        }
                        lemma_all_routes_prefix(sr, i + 1, sr.len() as int);
                        assert(sr.subrange(0, sr.len() as int) =~= sr);
                        let all = all_routes(sr);
                        assert(forall|x: int| 0 <= x < full.len() ==> full[x] == all[x]);
                        assert(!table_wf(all)) by {
                            let (x, y) = choose|x: int, y: int|
                                0 <= x < full.len() && 0 <= y < full.len() && x != y
                                    && crate::router::conflicts(#[trigger] full[x], #[trigger] full[y]);
                            assert(crate::router::conflicts(all[x], all[y]));
                        }
                    }
                    return Err(e);
                },
            }
            i = i + 1;
        }
        assert(sr.subrange(0, i as int) =~= sr);
        Ok(Gateway { name, router, own_api })
    }

    /// What to do with a request before routing: the health-check path is
    /// answered for every method, then every `OPTIONS` request is answered
    /// as a CORS preflight, and any other request proceeds.
    pub fn request_filter(&self, method: &[u8], path: &str) -> (r: EarlyAction)
        ensures
            r == early_spec(method@, bytes_of(path@)),
    {
        let healthz: Vec<u8> = vec![
            47u8, 95u8, 95u8, 101u8, 110u8, 99u8, 111u8, 114u8, 101u8, 47u8, 104u8, 101u8, 97u8,
            108u8, 116u8, 104u8, 122u8,
        ];
        let options: Vec<u8> = vec![79u8, 80u8, 84u8, 73u8, 79u8, 78u8, 83u8];
        if bytes_eq(path.as_bytes(), healthz.as_slice()) {
            EarlyAction::HealthCheck
        } else if bytes_eq(method, options.as_slice()) {
            EarlyAction::Preflight
        } else {
            EarlyAction::Proceed
        }
    }

    /// Picks where a request goes: the co-located address for an internal
    /// path when one is configured, else the service that owns the method
    /// and path.
    pub fn upstream_peer(&self, method: &[u8], path: &str) -> (r: Result<PeerChoice, GatewayError>)
        requires
            self.wf(),
        ensures
            match r {
                Ok(PeerChoice::OwnApi) => select_spec(self.spec_routes(), self.spec_own_api(), method@, bytes_of(path@))
                    == Ok::<Option<Seq<char>>, GatewayError>(None),
                Ok(PeerChoice::Service(s)) => select_spec(self.spec_routes(), self.spec_own_api(), method@, bytes_of(path@))
                    == Ok::<Option<Seq<char>>, GatewayError>(Some(s@)),
                Err(e) => select_spec(self.spec_routes(), self.spec_own_api(), method@, bytes_of(path@))
                    == Err::<Option<Seq<char>>, GatewayError>(e),
            },
    {
        let prefix: Vec<u8> = vec![47u8, 95u8, 95u8, 101u8, 110u8, 99u8, 111u8, 114u8, 101u8, 47u8];
        if self.own_api && starts_with(path.as_bytes(), prefix.as_slice()) {
            return Ok(PeerChoice::OwnApi);
        }
        let m = match Method::parse(method) {
            Some(m) => m,
            None => {
                return Err(GatewayError::InvalidMethod);
            },
        };
        match self.router.route(m, path) {
            Ok(s) => Ok(PeerChoice::Service(s)),
            Err(e) => Err(GatewayError::Routing(e)),
        }
    }
}

/// Whether the CORS policy is applied to a proxied response: only for a
/// request that was routed to a service.
pub fn response_filter(ctx: &Option<GatewayCtx>) -> (r: bool)
    ensures
        r == ctx.is_some(),
{
    ctx.is_some()
}

/// What `url::Url::parse` makes of `s`: its scheme, its host as text, its
/// path, and its port or the scheme's known default; `None` where it refuses
/// `s`.
pub uninterp spec fn parsed_url(s: Seq<char>) -> Option<(Seq<char>, Option<Seq<char>>, Seq<char>, Option<u16>)>;

#[verifier::external_type_specification]
#[verifier::external_body]
pub struct ExUrlParseError(url::ParseError);

/// Relies on `url::Url::parse`, with `scheme`, `host` (as text), `path` and
/// `port_or_known_default` of the result: a function of the input alone.
#[verifier::external_body]
fn parse_url(s: &str) -> (r: Result<(String, Option<String>, String, Option<u16>), url::ParseError>)
    ensures
        match r {
            Ok((scheme, host, path, port)) => parsed_url(s@) == Some(
                (scheme@, match host {
                    Some(h) => Some(h@),
                    None => None,
                }, path@, port),
            ),
            Err(_) => parsed_url(s@) is None,
        },
{
    let u = url::Url::parse(s)?;
    Ok((u.scheme().to_string(), u.host().map(|h| h.to_string()), u.path().to_string(), u.port_or_known_default()))
}

/// The upstream of a request as the engine connects to it.
pub struct UpstreamTarget {
    /// Whether the connection uses TLS (scheme `https`).
    pub tls: bool,
    /// The port to connect to: the URL's own or its scheme's default.
    pub port: Option<u16>,
    /// The host to resolve and to send in the `Host` header.
    pub host: Option<String>,
    /// The path that upstream request paths are put under.
    pub base_path: String,
}

pub open spec fn default_port_of(scheme: Seq<u8>) -> Option<u16> {
    if scheme == https_scheme() {
        Some(443u16)
    } else if scheme == http_scheme() {
        Some(80u16)
    } else {
        None
    }
}

pub open spec fn port_spec(url_port: Option<u16>, scheme: Seq<u8>) -> Option<u16> {
    match url_port {
        Some(p) => Some(p),
        None => default_port_of(scheme),
    }
}

/// The upstream described by the parts of a parsed base URL: TLS for
/// `https`, and the URL's port, else 443 for `https` and 80 for `http`.
pub fn upstream_target_from_parts(scheme: String, host: Option<String>, path: String, url_port: Option<u16>) -> (r: UpstreamTarget)
    ensures
        r.tls == (bytes_of(scheme@) == https_scheme()),
        r.port == port_spec(url_port, bytes_of(scheme@)),
        r.host == host,
        r.base_path == path,
{
    let https: Vec<u8> = vec![104u8, 116u8, 116u8, 112u8, 115u8];
    let http: Vec<u8> = vec![104u8, 116u8, 116u8, 112u8];
    let s = scheme.as_str().as_bytes();
    let tls = bytes_eq(s, https.as_slice());
    let port = match url_port {
        Some(p) => Some(p),
        None => if tls {
            Some(443u16)
        } else if bytes_eq(s, http.as_slice()) {
            Some(80u16)
        } else {
            None
        },
    };
    UpstreamTarget { tls, port, host, base_path: path }
}

/// The step of peer selection after `Gateway::upstream_peer` has picked a
/// service: resolves the registry's answer for that service into its
/// upstream and the request's context. Fails, as an internal error, when the
/// registry has no base URL for it or the URL does not parse.
pub fn resolve_upstream(service: String, base_url: Option<String>) -> (r: Result<(UpstreamTarget, GatewayCtx), GatewayError>)
    ensures
        match base_url {
            None => r == Err::<(UpstreamTarget, GatewayCtx), GatewayError>(GatewayError::NoUpstream),
            Some(u) => match parsed_url(u@) {
                None => r == Err::<(UpstreamTarget, GatewayCtx), GatewayError>(GatewayError::InvalidUpstreamUrl),
                Some((scheme, host, path, port)) => r matches Ok((t, c)) && {
                    &&& t.tls == (bytes_of(scheme) == https_scheme())
                    &&& t.port == port_spec(port, bytes_of(scheme))
                    &&& (match t.host {
                        Some(h) => host == Some(h@),
                        None => host is None,
                    })
                    &&& t.base_path@ == path
                    &&& c.upstream_service_name == service
                    &&& c.upstream_base_path@ == path
                    &&& (match c.upstream_host {
                        Some(h) => host == Some(h@),
                        None => host is None,
                    })
                },
            },
        },
{
    let url = match base_url {
        Some(u) => u,
        None => {
            return Err(GatewayError::NoUpstream);
        },
    };
    let (scheme, host, path, port) = match parse_url(url.as_str()) {
        Ok(parts) => parts,
        Err(_) => {
            return Err(GatewayError::InvalidUpstreamUrl);
        },
    };
    let ctx = GatewayCtx {
        upstream_service_name: service,
        upstream_base_path: path.clone(),
        upstream_host: host.clone(),
    };
    Ok((upstream_target_from_parts(scheme, host, path, port), ctx))
}

/// The tracing identifiers of an inbound request.
pub struct CallMeta {
    pub trace_id: u128,
    pub parent_span_id: Option<u64>,
    pub ext_correlation_id: Option<String>,
}

/// What the caller proved about itself, as the authenticator reports it.
pub enum AuthOutcome {
    Anonymous,
    Authenticated { user_id: String, data: Vec<u8> },
}

/// How the gateway authenticates itself to the service it calls.
#[derive(Clone, Copy, PartialEq, Eq, Debug, Structural)]
pub enum SvcAuthMethod {
    /// No service-to-service authentication.
    Noop,
    /// A method the service registry configured, by its index there.
    Configured(usize),
}

/// The context of the outgoing call, serialized into its metadata headers.
pub struct CallDesc {
    /// The name of the gateway, which is the caller.
    pub caller_gateway: String,
    /// The trace and span the call reports under.
    pub parent_span: (u128, u64),
    pub ext_correlation_id: Option<String>,
    pub auth_user_id: Option<String>,
    pub auth_data: Option<Vec<u8>>,
    /// How the call is authenticated to the service.
    pub svc_auth_method: SvcAuthMethod,
}

/// The span the outgoing call reports under: the inbound parent span, or a
/// fresh one where the request carries none.
pub open spec fn span_of(meta_span: Option<u64>, fresh_span: u64) -> u64 {
    match meta_span {
        Some(s) => s,
        None => fresh_span,
    }
}

impl Gateway {
    /// The call context of a routed request: the gateway as caller, the
    /// inbound trace with its parent span (or `fresh_span` where there is
    /// none), the inbound correlation id, no authenticated identity, and the
    /// service's authentication method, none where the registry configures
    /// none.
    pub fn describe_call(&self, meta: CallMeta, fresh_span: u64, svc_auth: Option<SvcAuthMethod>) -> (r: CallDesc)
        ensures
            r.svc_auth_method == (match svc_auth {
                Some(m) => m,
                None => SvcAuthMethod::Noop,
            }),
            r.caller_gateway@ == self.spec_name(),
            r.parent_span == (meta.trace_id, span_of(meta.parent_span_id, fresh_span)),
            r.ext_correlation_id == meta.ext_correlation_id,
            r.auth_user_id is None,
            r.auth_data is None,
    {
        let span = match meta.parent_span_id {
            Some(s) => s,
            None => fresh_span,
        };
        CallDesc {
            caller_gateway: self.name.clone(),
            parent_span: (meta.trace_id, span),
            ext_correlation_id: meta.ext_correlation_id,
            auth_user_id: None,
            auth_data: None,
            svc_auth_method: match svc_auth {
                Some(m) => m,
                None => SvcAuthMethod::Noop,
            },
        }
    }
}

/// Attaches an authenticated identity to a call; an anonymous caller leaves
/// it as it is.
pub fn attach_auth(desc: &mut CallDesc, outcome: AuthOutcome)
    ensures
        final(desc).caller_gateway == old(desc).caller_gateway,
        final(desc).parent_span == old(desc).parent_span,
        final(desc).ext_correlation_id == old(desc).ext_correlation_id,
        final(desc).svc_auth_method == old(desc).svc_auth_method,
        match outcome {
            AuthOutcome::Anonymous => {
                &&& final(desc).auth_user_id == old(desc).auth_user_id
                &&& final(desc).auth_data == old(desc).auth_data
            },
            AuthOutcome::Authenticated { user_id, data } => {
                &&& final(desc).auth_user_id == Some(user_id)
                &&& final(desc).auth_data == Some(data)
            },
        },
{
    match outcome {
        AuthOutcome::Anonymous => {},
        AuthOutcome::Authenticated { user_id, data } => {
            desc.auth_user_id = Some(user_id);
            desc.auth_data = Some(data);
        },
    }
}

/// What went wrong, as the proxy engine reports it.
#[derive(Clone, Copy, PartialEq, Eq, Debug, Structural)]
pub enum FailureKind {
    /// The failure names the status to answer with.
    HttpStatus(u16),
    WriteError,
    ReadError,
    ConnectionClosed,
    Other,
}

/// Which side of the proxy a failure came from.
#[derive(Clone, Copy, PartialEq, Eq, Debug, Structural)]
pub enum FailureSource {
    Upstream,
    Downstream,
    Internal,
    Unset,
}

/// A structured error declared by a backend: its status and its payload,
/// already encoded as JSON.
pub struct ApiError {
    pub status: u16,
    pub body: Vec<u8>,
}

/// The status a failure is answered with; 0 where the client connection is
/// already dead and nothing is sent.
pub open spec fn failure_code(kind: FailureKind, source: FailureSource) -> u16 {
    match kind {
        FailureKind::HttpStatus(code) => code,
        _ => match source {
            FailureSource::Upstream => 502,
            FailureSource::Downstream => match kind {
                FailureKind::WriteError | FailureKind::ReadError | FailureKind::ConnectionClosed => 0,
                _ => 400,
            },
            FailureSource::Internal | FailureSource::Unset => 500,
        },
    }
}

/// How a failure is answered.
pub struct FailureOutcome {
    /// The status reported back to the engine; 0 where nothing is sent.
    pub code: u16,
    /// The response to write; `None` where nothing is sent.
    pub response: Option<ResponsePlan>,
}

/// Classifies a failure and renders its response: a structured API error
/// with its own status and JSON body, any other with the stock page of its
/// status; CORS headers on either, and no keep-alive afterwards. The code
/// returned is the status of the response sent. A failure on a dead client
/// connection, or one that names status 0, is answered with nothing and
/// code 0.
pub fn fail_to_proxy(kind: FailureKind, source: FailureSource, api_error: Option<ApiError>) -> (r: FailureOutcome)
    ensures
        failure_code(kind, source) == 0 ==> r.code == 0 && r.response is None,
        failure_code(kind, source) != 0 ==> (r.response matches Some(resp) && {
            &&& r.code == resp.status
            &&& resp.cors
            &&& !resp.keep_alive
            &&& match api_error {
                Some(e) => {
                    &&& resp.status == e.status
                    &&& resp.body == Some(e.body)
                    &&& resp.content_length == Some(e.body@.len() as usize)
                    &&& resp.json
                    &&& resp.no_store
                    &&& resp.server_headers
                },
                None => {
                    &&& resp.status == failure_code(kind, source)
                    &&& resp.body is None
                    &&& resp.content_length is None
                    &&& !resp.json
                    &&& !resp.no_store
                    &&& !resp.server_headers
                },
            }
        }),
{
    let code: u16 = match kind {
        FailureKind::HttpStatus(c) => c,
        _ => match source {
            FailureSource::Upstream => 502,
            FailureSource::Downstream => match kind {
                FailureKind::WriteError | FailureKind::ReadError | FailureKind::ConnectionClosed => 0,
                _ => 400,
            },
            FailureSource::Internal | FailureSource::Unset => 500,
        },
    };
    if code == 0 {
        return FailureOutcome { code, response: None };
    }
    let resp = match api_error {
        Some(e) => {
            let len = e.body.len();
            ResponsePlan {
                status: e.status,
                body: Some(e.body),
                json: true,
                no_store: true,
                cors: true,
                keep_alive: false,
                content_length: Some(len),
                server_headers: true,
            }
        },
        None => ResponsePlan {
            status: code,
            body: None,
            json: false,
            no_store: false,
            cors: true,
            keep_alive: false,
            content_length: None,
            server_headers: false,
        },
    };
    FailureOutcome { code: resp.status, response: Some(resp) }
}

/// The health-check path is answered directly whatever the method, before
/// any routing.
pub proof fn lemma_healthz_any_method(method: Seq<u8>)
    ensures
        early_spec(method, healthz_path()) == EarlyAction::HealthCheck,
{
}

/// Every `OPTIONS` request to a path other than the health check is answered
/// as a preflight, before any routing.
pub proof fn lemma_options_is_preflight(path: Seq<u8>)
    requires
        path != healthz_path(),
    ensures
        early_spec(options_token(), path) == EarlyAction::Preflight,
{
}

/// A failure from the upstream side that names no status, and carries no
/// structured error, is answered with 502, whatever its kind.
pub proof fn lemma_upstream_failure_is_502(kind: FailureKind)
    requires
        !(kind is HttpStatus),
    ensures
        failure_code(kind, FailureSource::Upstream) == 502,
{
}

/// A read, write or closed-connection failure on the client side is answered
/// with nothing.
pub proof fn lemma_dead_downstream_not_answered(kind: FailureKind)
    requires
        kind is WriteError || kind is ReadError || kind is ConnectionClosed,
    ensures
        failure_code(kind, FailureSource::Downstream) == 0,
{
}

/// A request URI in parts: scheme and authority as the inbound request has
/// them, and the path with its query.
pub struct UriParts {
    pub scheme: Option<String>,
    pub authority: Option<String>,
    pub path_and_query: Vec<u8>,
}

impl GatewayCtx {
    /// The upstream URI: scheme and authority kept, the base path put in
    /// front of the path and query.
    pub fn rewrite_uri(&self, uri: UriParts) -> (r: UriParts)
        ensures
            r.scheme == uri.scheme,
            r.authority == uri.authority,
            r.path_and_query@ == trim_trailing_slashes(bytes_of(self.upstream_base_path@))
                + uri.path_and_query@,
    {
        let path_and_query = self.prepend_base_path(uri.path_and_query.as_slice());
        UriParts { scheme: uri.scheme, authority: uri.authority, path_and_query }
    }
}

/// How a routed request is rewritten before it goes upstream.
pub struct RequestRewrite {
    /// The upstream URI.
    pub uri: UriParts,
    /// The `Host` header to set, replacing the inbound one: the upstream's
    /// host, where it has one. The backend does not see the original host.
    pub host: Option<String>,
    /// Whether the smuggled WebSocket headers are unpacked: only for an
    /// upgrade request.
    pub unpack_websocket: bool,
}

/// The rewrite of a request before it goes upstream; `None`, leaving the
/// request as it is, for a request without a context (one that was answered
/// early or sent to the co-located address).
pub fn rewrite_request(ctx: &Option<GatewayCtx>, uri: UriParts, is_upgrade: bool) -> (r: Option<RequestRewrite>)
    ensures
        match ctx {
            None => r is None,
            Some(c) => r matches Some(w) && {
                &&& w.uri.scheme == uri.scheme
                &&& w.uri.authority == uri.authority
                &&& w.uri.path_and_query@ == trim_trailing_slashes(bytes_of(c.upstream_base_path@))
                    + uri.path_and_query@
                &&& w.host == c.upstream_host
                &&& w.unpack_websocket == is_upgrade
            },
        },
{
    match ctx {
        None => None,
        Some(c) => {
            let new_uri = c.rewrite_uri(uri);
            Some(RequestRewrite { uri: new_uri, host: c.upstream_host.clone(), unpack_websocket: is_upgrade })
        },
    }
}

/// Why an upstream has no endpoint to resolve.
#[derive(Clone, Copy, PartialEq, Eq, Debug, Structural)]
pub enum PeerError {
    /// The base URL names no host.
    NoHost,
    /// The base URL names no port and its scheme has no default.
    NoPort,
}

impl PeerError {
    /// Both are misconfigurations of the service registry: internal errors.
    pub fn status(&self) -> (r: u16)
        ensures
            r == 500,
    {
        500
    }
}

/// The host and port to look up for an upstream.
pub fn peer_endpoint(t: &UpstreamTarget) -> (r: Result<(String, u16), PeerError>)
    ensures
        match (&t.host, t.port) {
            (None, _) => r == Err::<(String, u16), PeerError>(PeerError::NoHost),
            (Some(_), None) => r == Err::<(String, u16), PeerError>(PeerError::NoPort),
            (Some(h), Some(p)) => r matches Ok((rh, rp)) && rh == h && rp == p,
        },
{
    match &t.host {
        None => Err(PeerError::NoHost),
        Some(h) => match t.port {
            None => Err(PeerError::NoPort),
            Some(p) => Ok((h.clone(), p)),
        },
    }
}

/// The rewrite of a routed request, with its call context, as it stands
/// before the authenticator runs.
pub struct PreparedRequest {
    pub rewrite: RequestRewrite,
    /// The unpacked WebSocket headers; present for an upgrade request only.
    pub websocket: Option<WsRewrite>,
    pub call: CallDesc,
}

pub open spec fn ws_ok(vs: Seq<Seq<u8>>, w: WsRewrite) -> bool {
    values_spec(vs) == Ok::<(Seq<HeaderView>, Seq<Seq<u8>>), SmuggleError>(
        (headers_view(w.added@), values_view(w.protocols@)),
    )
}

impl Gateway {
    /// The request-rewrite step up to the authenticator. A request without a
    /// context is left as it is. Otherwise: the URI gets the base path, the
    /// `Host` header becomes the upstream's, an upgrade request has its
    /// smuggled headers unpacked from `ws_values` (its
    /// `Sec-WebSocket-Protocol` values), failing the step when they are
    /// malformed, and the call is described with the gateway as caller, the
    /// inbound trace and parent span (or `fresh_span`), the inbound
    /// correlation id, no authenticated identity, and the service's
    /// authentication method, none where the registry configures none.
    pub fn upstream_request_filter(
        &self,
        ctx: &Option<GatewayCtx>,
        uri: UriParts,
        is_upgrade: bool,
        ws_values: &Vec<Vec<u8>>,
        meta: CallMeta,
        fresh_span: u64,
        svc_auth: Option<SvcAuthMethod>,
    ) -> (r: Result<Option<PreparedRequest>, SmuggleError>)
        ensures
            ctx is None ==> r matches Ok(None),
            ctx matches Some(c) ==> {
                &&& (is_upgrade && values_spec(values_view(ws_values@)) is Err) ==> r == Err::<
                    Option<PreparedRequest>,
                    SmuggleError,
                >(values_spec(values_view(ws_values@))->Err_0)
                &&& !(is_upgrade && values_spec(values_view(ws_values@)) is Err) ==> (r matches Ok(Some(p)) && {
                    &&& p.rewrite.uri.scheme == uri.scheme
                    &&& p.rewrite.uri.authority == uri.authority
                    &&& p.rewrite.uri.path_and_query@ == trim_trailing_slashes(
                        bytes_of(c.upstream_base_path@),
                    ) + uri.path_and_query@
                    &&& p.rewrite.host == c.upstream_host
                    &&& p.rewrite.unpack_websocket == is_upgrade
                    &&& (p.websocket is Some <==> is_upgrade)
                    &&& (p.websocket matches Some(w) ==> ws_ok(values_view(ws_values@), w))
                    &&& p.call.caller_gateway@ == self.spec_name()
                    &&& p.call.parent_span == (meta.trace_id, span_of(meta.parent_span_id, fresh_span))
                    &&& p.call.ext_correlation_id == meta.ext_correlation_id
                    &&& p.call.auth_user_id is None
                    &&& p.call.auth_data is None
                    &&& p.call.svc_auth_method == (match svc_auth {
                        Some(m) => m,
                        None => SvcAuthMethod::Noop,
                    })
                })
            },
    {
        let rewrite = match rewrite_request(ctx, uri, is_upgrade) {
            None => {
                return Ok(None);
            },
            Some(w) => w,
        };
        let websocket = if is_upgrade {
            match update_request_from_websocket_protocol(ws_values) {
                Ok(w) => Some(w),
                Err(e) => {
                    return Err(e);
                },
            }
        } else {
            None
        };
        let call = self.describe_call(meta, fresh_span, svc_auth);
        Ok(Some(PreparedRequest { rewrite, websocket, call }))
    }
}

/// Why the authenticator failed.
#[derive(Clone, Copy, PartialEq, Eq, Debug, Structural)]
pub enum AuthFailure {
    /// The authenticator itself failed: an internal error.
    Internal,
    /// The authenticator found the credentials malformed: a client fault.
    ClientFault,
}

pub open spec fn auth_failure_status(f: AuthFailure) -> u16 {
    match f {
        AuthFailure::Internal => 500,
        AuthFailure::ClientFault => 400,
    }
}

/// The request-rewrite step after the authenticator: `auth` is `None`
/// where no authenticator is configured. An authenticated identity is
/// attached to the call; an anonymous caller is no error; a failure of the
/// authenticator fails the request with 500, or 400 where it blames the
/// client's credentials.
pub fn finish_request(desc: CallDesc, auth: Option<Result<AuthOutcome, AuthFailure>>) -> (r: Result<CallDesc, u16>)
    ensures
        match auth {
            None => r matches Ok(d) && d == desc,
            Some(Err(f)) => r == Err::<CallDesc, u16>(auth_failure_status(f)),
            Some(Ok(AuthOutcome::Anonymous)) => r matches Ok(d) && d == desc,
            Some(Ok(AuthOutcome::Authenticated { user_id, data })) => r matches Ok(d) && {
                &&& d.caller_gateway == desc.caller_gateway
                &&& d.parent_span == desc.parent_span
                &&& d.ext_correlation_id == desc.ext_correlation_id
                &&& d.svc_auth_method == desc.svc_auth_method
                &&& d.auth_user_id == Some(user_id)
                &&& d.auth_data == Some(data)
            },
        },
{
    match auth {
        None => Ok(desc),
        Some(Err(AuthFailure::Internal)) => Err(500),
        Some(Err(AuthFailure::ClientFault)) => Err(400),
        Some(Ok(outcome)) => {
            let mut d = desc;
            attach_auth(&mut d, outcome);
            Ok(d)
        },
    }
}

} // verus!
