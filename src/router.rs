use vstd::prelude::*;
use vstd::utf8::encode_utf8;

use crate::bytes::{bytes_eq, split_bytes, split_on};

verus! {

/// `/` in ASCII.
pub const SLASH: u8 = 47;

/// `:` in ASCII, which opens a parameter segment of a route pattern.
pub const COLON: u8 = 58;

/// The HTTP methods that routes can be declared for.
#[derive(Clone, Copy, PartialEq, Eq, Debug, Structural)]
pub enum Method {
    Get,
    Head,
    Post,
    Put,
    Delete,
    Connect,
    Options,
    Trace,
    Patch,
}

/// The method that the request-line token `b` names, if any; tokens are
/// case-sensitive upper-case ASCII (`GET` is 71, 69, 84).
pub open spec fn method_of(b: Seq<u8>) -> Option<Method> {
    if b == seq![71u8, 69u8, 84u8] {
        Some(Method::Get)
    } else if b == seq![72u8, 69u8, 65u8, 68u8] {
        Some(Method::Head)
    } else if b == seq![80u8, 79u8, 83u8, 84u8] {
        Some(Method::Post)
    } else if b == seq![80u8, 85u8, 84u8] {
        Some(Method::Put)
    } else if b == seq![68u8, 69u8, 76u8, 69u8, 84u8, 69u8] {
        Some(Method::Delete)
    } else if b == seq![67u8, 79u8, 78u8, 78u8, 69u8, 67u8, 84u8] {
        Some(Method::Connect)
    } else if b == seq![79u8, 80u8, 84u8, 73u8, 79u8, 78u8, 83u8] {
        Some(Method::Options)
    } else if b == seq![84u8, 82u8, 65u8, 67u8, 69u8] {
        Some(Method::Trace)
    } else if b == seq![80u8, 65u8, 84u8, 67u8, 72u8] {
        Some(Method::Patch)
    } else {
        None
    }
}

impl Method {
    /// Reads a method from its request-line token.
    pub fn parse(b: &[u8]) -> (r: Option<Method>)
        ensures
            r == method_of(b@),
    {
        if bytes_eq(b, vec![71u8, 69u8, 84u8].as_slice()) {
            Some(Method::Get)
        } else if bytes_eq(b, vec![72u8, 69u8, 65u8, 68u8].as_slice()) {
            Some(Method::Head)
        } else if bytes_eq(b, vec![80u8, 79u8, 83u8, 84u8].as_slice()) {
            Some(Method::Post)
        } else if bytes_eq(b, vec![80u8, 85u8, 84u8].as_slice()) {
            Some(Method::Put)
        } else if bytes_eq(b, vec![68u8, 69u8, 76u8, 69u8, 84u8, 69u8].as_slice()) {
            Some(Method::Delete)
        } else if bytes_eq(b, vec![67u8, 79u8, 78u8, 78u8, 69u8, 67u8, 84u8].as_slice()) {
            Some(Method::Connect)
        } else if bytes_eq(b, vec![79u8, 80u8, 84u8, 73u8, 79u8, 78u8, 83u8].as_slice()) {
            Some(Method::Options)
        } else if bytes_eq(b, vec![84u8, 82u8, 65u8, 67u8, 69u8].as_slice()) {
            Some(Method::Trace)
        } else if bytes_eq(b, vec![80u8, 65u8, 84u8, 67u8, 72u8].as_slice()) {
            Some(Method::Patch)
        } else {
            None
        }
    }
}

/// One segment of a route pattern: a literal that must equal the path
/// segment, or a parameter that takes any non-empty segment.
pub enum Segment {
    Literal(Vec<u8>),
    Param,
}

impl View for Segment {
    /// `Some(bytes)` for a literal, `None` for a parameter.
    type V = Option<Seq<u8>>;

    open spec fn view(&self) -> Option<Seq<u8>> {
        match self {
            Segment::Literal(b) => Some(b@),
            Segment::Param => None,
        }
    }
}

/// A pattern as a sequence of segment views.
pub type PatternView = Seq<Option<Seq<u8>>>;

/// A registered route: the owning service, the method and the pattern.
pub struct RouteView {
    pub service: Seq<char>,
    pub method: Method,
    pub pattern: PatternView,
}

/// A registered route.
pub struct Route {
    pub service: String,
    pub method: Method,
    pub pattern: Vec<Segment>,
}

impl View for Route {
    type V = RouteView;

    open spec fn view(&self) -> RouteView {
        RouteView {
            service: self.service@,
            method: self.method,
            pattern: self.pattern@.map_values(|s: Segment| s@),
        }
    }
}

/// The bytes of a string as UTF-8.
pub open spec fn bytes_of(s: Seq<char>) -> Seq<u8> {
    encode_utf8(s)
}

/// The segments of a request path: the pieces between its slashes
/// (`/a/b` has the segments "", "a" and "b").
pub open spec fn path_segments(path: Seq<u8>) -> Seq<Seq<u8>> {
    split_on(path, SLASH)
}

/// A pattern segment written `:name` is a parameter; any other is a literal.
pub open spec fn segment_of(s: Seq<u8>) -> Option<Seq<u8>> {
    if s.len() > 0 && s[0] == COLON {
        None
    } else {
        Some(s)
    }
}

/// The pattern that a route path declares.
pub open spec fn pattern_of(path: Seq<u8>) -> PatternView {
    path_segments(path).map_values(|s: Seq<u8>| segment_of(s))
}

pub open spec fn segment_matches(p: Option<Seq<u8>>, s: Seq<u8>) -> bool {
    match p {
        Some(lit) => lit == s,
        None => s.len() > 0,
    }
}

/// Whether a pattern matches the segments of a path, position by position.
pub open spec fn pattern_matches(pat: PatternView, segs: Seq<Seq<u8>>) -> bool {
    &&& pat.len() == segs.len()
    &&& forall|i: int| 0 <= i < pat.len() ==> segment_matches(#[trigger] pat[i], segs[i])
}

/// `p` outranks `q` when, at the first position where one has a literal and
/// the other a parameter, `p` has the literal.
#[verifier::opaque]
pub open spec fn outranks(p: PatternView, q: PatternView) -> bool {
    exists|i: int|
        0 <= i < p.len() && i < q.len() && p[i] is Some && q[i] is None && forall|j: int|
            0 <= j < i ==> (#[trigger] p[j] is Some <==> q[j] is Some)
}

/// Two routes conflict when they declare the same method and pattern
/// (parameter names do not count).
pub open spec fn conflicts(a: RouteView, b: RouteView) -> bool {
    a.method == b.method && a.pattern == b.pattern
}

/// No two routes of a table conflict.
pub open spec fn table_wf(routes: Seq<RouteView>) -> bool {
    forall|i: int, j: int|
        0 <= i < routes.len() && 0 <= j < routes.len() && i != j ==> !conflicts(
            #[trigger] routes[i],
            #[trigger] routes[j],
        )
}

pub open spec fn serves(r: RouteView, m: Method, segs: Seq<Seq<u8>>) -> bool {
    r.method == m && pattern_matches(r.pattern, segs)
}

/// Route `i` serves the request and no route that serves it outranks it.
pub open spec fn is_best(routes: Seq<RouteView>, m: Method, segs: Seq<Seq<u8>>, i: int) -> bool {
    &&& 0 <= i < routes.len()
    &&& serves(routes[i], m, segs)
    &&& forall|k: int|
        0 <= k < routes.len() && serves(#[trigger] routes[k], m, segs) ==> !outranks(
            routes[k].pattern,
            routes[i].pattern,
        )
}

/// Why a request found no service.
#[derive(Clone, Copy, PartialEq, Eq, Debug, Structural)]
pub enum RouteError {
    /// No route's pattern matches the path.
    NotFound,
    /// Some route's pattern matches the path, but none for this method.
    MethodNotAllowed,
}

/// The service that a table routes a request to.
pub open spec fn route_spec(routes: Seq<RouteView>, m: Method, path: Seq<u8>) -> Result<
    Seq<char>,
    RouteError,
> {
    let segs = path_segments(path);
    if exists|i: int| 0 <= i < routes.len() && serves(#[trigger] routes[i], m, segs) {
        Ok(routes[choose|i: int| is_best(routes, m, segs, i)].service)
    } else if exists|i: int|
        0 <= i < routes.len() && pattern_matches(#[trigger] routes[i].pattern, segs) {
        Err(RouteError::MethodNotAllowed)
    } else {
        Err(RouteError::NotFound)
    }
}

pub proof fn lemma_outranks_irreflexive(p: PatternView)
    ensures
        !outranks(p, p),
{
    reveal(outranks);
}

pub proof fn lemma_outranks_transitive(a: PatternView, b: PatternView, c: PatternView)
    requires
        outranks(a, b),
        outranks(b, c),
    ensures
        outranks(a, c),
{
    reveal(outranks);
    let i = choose|i: int|
        0 <= i < a.len() && i < b.len() && a[i] is Some && b[i] is None && forall|j: int|
            0 <= j < i ==> (#[trigger] a[j] is Some <==> b[j] is Some);
    let k = choose|k: int|
        0 <= k < b.len() && k < c.len() && b[k] is Some && c[k] is None && forall|j: int|
            0 <= j < k ==> (#[trigger] b[j] is Some <==> c[j] is Some);
    if i < k {
        assert forall|j: int| 0 <= j < i implies (#[trigger] a[j] is Some <==> c[j] is Some) by {
            assert(b[j] is Some <==> c[j] is Some);
        }
        assert(c[i] is None);
    } else {
        assert(k < i);
        assert forall|j: int| 0 <= j < k implies (#[trigger] a[j] is Some <==> c[j] is Some) by {
            assert(a[j] is Some <==> b[j] is Some);
        }
        assert(a[k] is Some);
    }
}

proof fn lemma_kinds_agree(p: PatternView, q: PatternView, k: int)
    requires
        p.len() == q.len(),
        0 <= k <= p.len(),
        !outranks(p, q),
        !outranks(q, p),
    ensures
        forall|j: int| 0 <= j < k ==> (#[trigger] p[j] is Some <==> q[j] is Some),
    decreases k,
{
    reveal(outranks);
    if k > 0 {
        lemma_kinds_agree(p, q, k - 1);
        let i = k - 1;
        if p[i] is Some && q[i] is None {
            assert(outranks(p, q));
        }
        if q[i] is Some && p[i] is None {
            assert(forall|j: int| 0 <= j < i ==> (#[trigger] q[j] is Some <==> p[j] is Some));
            assert(outranks(q, p));
        }
    }
}

/// Two patterns that both match a path and neither outranks the other are
/// the same pattern.
pub proof fn lemma_unranked_equal(p: PatternView, q: PatternView, segs: Seq<Seq<u8>>)
    requires
        pattern_matches(p, segs),
        pattern_matches(q, segs),
        !outranks(p, q),
        !outranks(q, p),
    ensures
        p == q,
{
    lemma_kinds_agree(p, q, p.len() as int);
    assert forall|j: int| 0 <= j < p.len() implies p[j] == q[j] by {
        assert(segment_matches(p[j], segs[j]));
        assert(segment_matches(q[j], segs[j]));
    }
    assert(p =~= q);
}

/// In a table without conflicts at most one route is the best for a request.
pub proof fn lemma_best_unique(routes: Seq<RouteView>, m: Method, segs: Seq<Seq<u8>>, i: int, j: int)
    requires
        table_wf(routes),
        is_best(routes, m, segs, i),
        is_best(routes, m, segs, j),
    ensures
        i == j,
{
    assert(serves(routes[i], m, segs));
    assert(serves(routes[j], m, segs));
    lemma_unranked_equal(routes[i].pattern, routes[j].pattern, segs);
    if i != j {
        assert(conflicts(routes[i], routes[j]));
    }
}

fn segment_matches_exec(p: &Segment, s: &Vec<u8>) -> (r: bool)
    ensures
        r == segment_matches(p@, s@),
{
    match p {
        Segment::Literal(lit) => bytes_eq(lit.as_slice(), s.as_slice()),
        Segment::Param => s.len() > 0,
    }
}

fn pattern_matches_exec(pat: &Vec<Segment>, segs: &Vec<Vec<u8>>) -> (r: bool)
    ensures
        r == pattern_matches(pat@.map_values(|s: Segment| s@), segs@.map_values(|v: Vec<u8>| v@)),
{
    let ghost pv = pat@.map_values(|s: Segment| s@);
    let ghost sv = segs@.map_values(|v: Vec<u8>| v@);
    if pat.len() != segs.len() {
        return false;
    }
    let mut i: usize = 0;
    while i < pat.len()
        invariant
            pat@.len() == segs@.len(),
            pv == pat@.map_values(|s: Segment| s@),
            sv == segs@.map_values(|v: Vec<u8>| v@),
            i <= pat@.len(),
            forall|j: int| 0 <= j < i ==> segment_matches(#[trigger] pv[j], sv[j]),
        decreases pat@.len() - i,
    {
        if !segment_matches_exec(&pat[i], &segs[i]) {
            assert(!segment_matches(pv[i as int], sv[i as int]));
            return false;
        }
        i = i + 1;
    }
    true
}

fn is_literal(s: &Segment) -> (r: bool)
    ensures
        r == (s@ is Some),
{
    match s {
        Segment::Literal(_) => true,
        Segment::Param => false,
    }
}

fn outranks_exec(p: &Vec<Segment>, q: &Vec<Segment>) -> (r: bool)
    ensures
        r == outranks(p@.map_values(|s: Segment| s@), q@.map_values(|s: Segment| s@)),
{
    let ghost pv = p@.map_values(|s: Segment| s@);
    let ghost qv = q@.map_values(|s: Segment| s@);
    let mut i: usize = 0;
    while i < p.len() && i < q.len()
        invariant
            pv == p@.map_values(|s: Segment| s@),
            qv == q@.map_values(|s: Segment| s@),
            i <= p@.len(),
            i <= q@.len(),
            forall|j: int| 0 <= j < i ==> (#[trigger] pv[j] is Some <==> qv[j] is Some),
        decreases p@.len() - i,
    {
        proof {
            reveal(outranks);
        }
        let p_lit = is_literal(&p[i]);
        let q_lit = is_literal(&q[i]);
        assert(pv[i as int] == p@[i as int]@ && qv[i as int] == q@[i as int]@);
        if p_lit != q_lit {
            if p_lit {
                assert(outranks(pv, qv));
            } else {
                assert(forall|j: int| 0 <= j < i ==> (#[trigger] qv[j] is Some <==> pv[j] is Some));
                assert(outranks(qv, pv));
                assert(!outranks(pv, qv)) by {
                    if outranks(pv, qv) {
                        let k = choose|k: int|
                            0 <= k < pv.len() && k < qv.len() && pv[k] is Some && qv[k] is None
                                && forall|j: int| 0 <= j < k ==> (#[trigger] pv[j] is Some <==> qv[j] is Some);
                        assert(k != i);
                    }
                }
            }
            return p_lit;
        }
        i = i + 1;
    }
    proof {
        reveal(outranks);
    }
    false
}

fn same_pattern(p: &Vec<Segment>, q: &Vec<Segment>) -> (r: bool)
    ensures
        r == (p@.map_values(|s: Segment| s@) == q@.map_values(|s: Segment| s@)),
{
    let ghost pv = p@.map_values(|s: Segment| s@);
    let ghost qv = q@.map_values(|s: Segment| s@);
    if p.len() != q.len() {
        assert(pv.len() != qv.len());
        return false;
    }
    let mut i: usize = 0;
    while i < p.len()
        invariant
            p@.len() == q@.len(),
            pv == p@.map_values(|s: Segment| s@),
            qv == q@.map_values(|s: Segment| s@),
            i <= p@.len(),
            forall|j: int| 0 <= j < i ==> pv[j] == qv[j],
        decreases p@.len() - i,
    {
        let eq = match (&p[i], &q[i]) {
            (Segment::Literal(a), Segment::Literal(b)) => bytes_eq(a.as_slice(), b.as_slice()),
            (Segment::Param, Segment::Param) => true,
            _ => false,
        };
        assert(pv[i as int] == p@[i as int]@ && qv[i as int] == q@[i as int]@);
        if !eq {
            assert(pv[i as int] != qv[i as int]);
            return false;
        }
        i = i + 1;
    }
    assert(pv =~= qv);
    true
}

/// Reads a route path into its pattern.
pub fn parse_pattern(path: &str) -> (r: Vec<Segment>)
    ensures
        r@.map_values(|s: Segment| s@) == pattern_of(bytes_of(path@)),
{
    let segs = split_bytes(path.as_bytes(), SLASH);
    let ghost sv = segs@.map_values(|v: Vec<u8>| v@);
    let mut out: Vec<Segment> = Vec::new();
    let mut i: usize = 0;
    while i < segs.len()
        invariant
            sv == segs@.map_values(|v: Vec<u8>| v@),
            sv == path_segments(bytes_of(path@)),
            i <= segs@.len(),
            out@.len() == i,
            forall|j: int| 0 <= j < i ==> (#[trigger] out@[j])@ == segment_of(sv[j]),
        decreases segs@.len() - i,
    {
        let s = &segs[i];
        if s.len() > 0 && s[0] == COLON {
            out.push(Segment::Param);
        } else {
            out.push(Segment::Literal(s.clone()));
        }
        i = i + 1;
    }
    assert(out@.map_values(|s: Segment| s@) =~= pattern_of(bytes_of(path@)));
    out
}

/// Why a batch of routes could not be registered.
#[derive(Clone, Copy, PartialEq, Eq, Debug, Structural)]
pub enum AddRouteError {
    /// The route at this index of the batch has the method and pattern of a
    /// route registered before it.
    Duplicate(usize),
}

/// The routes that a batch declares for a service.
pub open spec fn batch_view(service: Seq<char>, routes: Seq<(Method, String)>) -> Seq<RouteView> {
    routes.map_values(
        |r: (Method, String)|
            RouteView { service: service, method: r.0, pattern: pattern_of(bytes_of(r.1@)) },
    )
}

/// Route `k` of the batch conflicts with a route of the table or with an
/// earlier route of the batch.
pub open spec fn conflicts_at(table: Seq<RouteView>, batch: Seq<RouteView>, k: int) -> bool {
    (exists|i: int| 0 <= i < table.len() && conflicts(#[trigger] table[i], batch[k])) || (exists|i: int|
        0 <= i < k && conflicts(#[trigger] batch[i], batch[k]))
}

/// The routing table: every registered route, each with its owning service.
/// No two routes have the same method and pattern; among the routes that
/// serve a request, one whose literals come first wins.
pub struct Router {
    routes: Vec<Route>,
}

impl View for Router {
    type V = Seq<RouteView>;

    closed spec fn view(&self) -> Seq<RouteView> {
        self.routes@.map_values(|r: Route| r@)
    }
}

impl Router {
    pub open spec fn wf(&self) -> bool {
        table_wf(self@)
    }

    /// An empty table.
    pub fn new() -> (r: Router)
        ensures
            r.wf(),
            r@ == Seq::<RouteView>::empty(),
    {
        let r = Router { routes: Vec::new() };
        assert(r@ =~= Seq::<RouteView>::empty());
        r
    }

    /// Registers a batch of routes for `service`, all of them or none: the
    /// batch is refused when one of its routes has the method and pattern of
    /// a route already registered or of an earlier route of the batch.
    pub fn add_routes(&mut self, service: &String, routes: &Vec<(Method, String)>) -> (r: Result<
        (),
        AddRouteError,
    >)
        requires
            old(self).wf(),
        ensures
            final(self).wf(),
            match r {
                Ok(()) => {
                    &&& forall|k: int|
                        0 <= k < routes@.len() ==> !conflicts_at(
                            old(self)@,
                            batch_view(service@, routes@),
                            k,
                        )
                    &&& final(self)@ == old(self)@ + batch_view(service@, routes@)
                },
                Err(AddRouteError::Duplicate(k)) => {
                    &&& 0 <= k < routes@.len()
                    &&& conflicts_at(old(self)@, batch_view(service@, routes@), k as int)
                    &&& forall|j: int|
                        0 <= j < k ==> !conflicts_at(old(self)@, batch_view(service@, routes@), j)
                    &&& final(self)@ == old(self)@
                },
            },
    {
        let ghost table = self@;
        let ghost batch = batch_view(service@, routes@);
        let mut fresh: Vec<Route> = Vec::new();
        let mut k: usize = 0;
        while k < routes.len()
            invariant
                table == self@,
                table_wf(table),
                batch == batch_view(service@, routes@),
                k <= routes@.len(),
                fresh@.map_values(|r: Route| r@) == batch.subrange(0, k as int),
                    fresh@.len() == k,
                forall|j: int| 0 <= j < k ==> !conflicts_at(table, batch, j),
            decreases routes@.len() - k,
        {
            let pattern = parse_pattern(routes[k].1.as_str());
            let entry = Route { service: service.clone(), method: routes[k].0, pattern };
            assert(entry@ == batch[k as int]);
            let mut i: usize = 0;
            while i < self.routes.len()
                invariant
                    table == self@,
                    table_wf(table),
                    batch == batch_view(service@, routes@),
                    k < routes@.len(),
                    fresh@.map_values(|r: Route| r@) == batch.subrange(0, k as int),
                    fresh@.len() == k,
                    forall|j: int| 0 <= j < k ==> !conflicts_at(table, batch, j),
                    entry@ == batch[k as int],
                    i <= self.routes@.len(),
                    forall|j: int| 0 <= j < i ==> !conflicts(#[trigger] table[j], batch[k as int]),
                decreases self.routes@.len() - i,
            {
                assert(self.routes@[i as int]@ == table[i as int]);
                if self.routes[i].method == entry.method && same_pattern(&self.routes[i].pattern, &entry.pattern) {
                    assert(conflicts(table[i as int], batch[k as int]));
                    return Err(AddRouteError::Duplicate(k));
                }
                i = i + 1;
            }
            let mut i: usize = 0;
            while i < fresh.len()
                invariant
                    table == self@,
                    table_wf(table),
                    batch == batch_view(service@, routes@),
                    k < routes@.len(),
                    forall|j: int| 0 <= j < k ==> !conflicts_at(table, batch, j),
                    forall|j: int| 0 <= j < table.len() ==> !conflicts(#[trigger] table[j], batch[k as int]),
                    fresh@.map_values(|r: Route| r@) == batch.subrange(0, k as int),
                    fresh@.len() == k,
                    entry@ == batch[k as int],
                    batch.len() == routes@.len(),
                    i <= fresh@.len(),
                    forall|j: int| 0 <= j < i ==> !conflicts(#[trigger] batch[j], batch[k as int]),
                decreases fresh@.len() - i,
            {
                assert(fresh@.map_values(|r: Route| r@)[i as int] == batch[i as int]);
                assert(fresh@[i as int]@ == batch[i as int]);
                if fresh[i].method == entry.method && same_pattern(&fresh[i].pattern, &entry.pattern) {
                    assert(conflicts(batch[i as int], batch[k as int]));
                    return Err(AddRouteError::Duplicate(k));
                }
                i = i + 1;
            }
            proof {
                assert(forall|j: int| 0 <= j < k ==> fresh@.map_values(|r: Route| r@)[j] == #[trigger] fresh@[j]@);
                assert(fresh@.push(entry).map_values(|r: Route| r@) =~= batch.subrange(0, k + 1));
            }
            fresh.push(entry);
            k = k + 1;
        }
        assert(batch.subrange(0, k as int) =~= batch);
        let ghost fv = fresh@.map_values(|r: Route| r@);
        self.routes.append(&mut fresh);
        assert(self@ =~= table + batch);
        assert forall|i: int, j: int|
            0 <= i < self@.len() && 0 <= j < self@.len() && i != j implies !conflicts(
            #[trigger] self@[i],
            #[trigger] self@[j],
        ) by {
            let n = table.len() as int;
            if i >= n && j >= n {
                if i < j {
                    assert(!conflicts_at(table, batch, j - n));
                    assert(!conflicts(batch[i - n], batch[j - n]));
                } else {
                    assert(!conflicts_at(table, batch, i - n));
                    assert(!conflicts(batch[j - n], batch[i - n]));
                }
            } else if i >= n {
                assert(!conflicts_at(table, batch, i - n));
                assert(!conflicts(table[j], batch[i - n]));
            } else if j >= n {
                assert(!conflicts_at(table, batch, j - n));
                assert(!conflicts(table[i], batch[j - n]));
            }
        }
        Ok(())
    }

    /// The service that owns a request with this method and path.
    pub fn route(&self, method: Method, path: &str) -> (r: Result<String, RouteError>)
        requires
            self.wf(),
        ensures
            match r {
                Ok(s) => route_spec(self@, method, bytes_of(path@)) == Ok::<Seq<char>, RouteError>(s@),
                Err(e) => route_spec(self@, method, bytes_of(path@)) == Err::<Seq<char>, RouteError>(e),
            },
    {
        let segs = split_bytes(path.as_bytes(), SLASH);
        let ghost sv = segs@.map_values(|v: Vec<u8>| v@);
        let ghost table = self@;
        let mut best: Option<usize> = None;
        let mut any_match = false;
        let mut i: usize = 0;
        while i < self.routes.len()
            invariant
                table == self@,
                sv == segs@.map_values(|v: Vec<u8>| v@),
                i <= self.routes@.len(),
                any_match == exists|k: int| 0 <= k < i && pattern_matches(#[trigger] table[k].pattern, sv),
                match best {
                    Some(b) => {
                        &&& b < i
                        &&& serves(table[b as int], method, sv)
                        &&& forall|k: int|
                            0 <= k < i && serves(#[trigger] table[k], method, sv) ==> !outranks(
                                table[k].pattern,
                                table[b as int].pattern,
                            )
                    },
                    None => forall|k: int| 0 <= k < i ==> !serves(#[trigger] table[k], method, sv),
                },
            decreases self.routes@.len() - i,
        {
            assert(self.routes@[i as int]@ == table[i as int]);
            let matched = pattern_matches_exec(&self.routes[i].pattern, &segs);
            assert(matched == pattern_matches(table[i as int].pattern, sv));
            if matched {
                any_match = true;
                if self.routes[i].method == method {
                    match best {
                        None => {
                            proof {
                                lemma_outranks_irreflexive(table[i as int].pattern);
                            }
                            best = Some(i);
                        },
                        Some(b) => {
                            assert(self.routes@[b as int]@ == table[b as int]);
                            if outranks_exec(&self.routes[i].pattern, &self.routes[b].pattern) {
                                assert forall|k: int|
                                    0 <= k <= i && serves(#[trigger] table[k], method, sv) implies !outranks(
                                    table[k].pattern,
                                    table[i as int].pattern,
                                ) by {
                                    lemma_outranks_irreflexive(table[i as int].pattern);
                                    if outranks(table[k].pattern, table[i as int].pattern) {
                                        lemma_outranks_transitive(
                                            table[k].pattern,
                                            table[i as int].pattern,
                                            table[b as int].pattern,
                                        );
                                    }
                                }
                                best = Some(i);
                            }
                        },
                    }
                }
            }
            i = i + 1;
        }
        let ghost path_bytes = bytes_of(path@);
        assert(sv == path_segments(path_bytes));
        match best {
            Some(b) => {
                proof {
                    assert(is_best(table, method, sv, b as int));
                    let c = choose|c: int| is_best(table, method, sv, c);
                    lemma_best_unique(table, method, sv, b as int, c);
                }
                assert(self.routes@[b as int]@ == table[b as int]);
                Ok(self.routes[b].service.clone())
            },
            None => {
                if any_match {
                    Err(RouteError::MethodNotAllowed)
                } else {
                    Err(RouteError::NotFound)
                }
            },
        }
    }
}

/// The pattern of a path taken literally, every segment a literal.
pub open spec fn literal_pattern(path: Seq<u8>) -> PatternView {
    path_segments(path).map_values(|s: Seq<u8>| Some(s))
}

/// A route whose pattern is a path taken literally routes a request for that
/// path and its method to its own service.
pub proof fn lemma_registered_literal_route(routes: Seq<RouteView>, i: int, path: Seq<u8>)
    requires
        table_wf(routes),
        0 <= i < routes.len(),
        routes[i].pattern == literal_pattern(path),
    ensures
        route_spec(routes, routes[i].method, path) == Ok::<Seq<char>, RouteError>(
            routes[i].service,
        ),
{
    reveal(outranks);
    let m = routes[i].method;
    let segs = path_segments(path);
    assert(pattern_matches(routes[i].pattern, segs));
    assert(serves(routes[i], m, segs));
    assert forall|k: int| 0 <= k < routes.len() && serves(#[trigger] routes[k], m, segs) implies !outranks(
        routes[k].pattern,
        routes[i].pattern,
    ) by {
        if outranks(routes[k].pattern, routes[i].pattern) {
            let j = choose|j: int|
                0 <= j < routes[k].pattern.len() && j < routes[i].pattern.len()
                    && routes[k].pattern[j] is Some && routes[i].pattern[j] is None && forall|l: int|
                    0 <= l < j ==> (#[trigger] routes[k].pattern[l] is Some <==> routes[i].pattern[l] is Some);
            assert(routes[i].pattern[j] is Some);
        }
    }
    assert(is_best(routes, m, segs, i));
    let c = choose|c: int| is_best(routes, m, segs, c);
    lemma_best_unique(routes, m, segs, i, c);
}

/// A path that no registered pattern matches is not routed anywhere.
pub proof fn lemma_unregistered_path_not_found(routes: Seq<RouteView>, m: Method, path: Seq<u8>)
    requires
        forall|i: int| 0 <= i < routes.len() ==> !pattern_matches(#[trigger] routes[i].pattern, path_segments(path)),
    ensures
        route_spec(routes, m, path) == Err::<Seq<char>, RouteError>(RouteError::NotFound),
{
}

/// A request is only ever routed to the service of a route that serves it.
pub proof fn lemma_routed_service_serves(routes: Seq<RouteView>, m: Method, path: Seq<u8>)
    requires
        table_wf(routes),
        route_spec(routes, m, path) is Ok,
    ensures
        exists|i: int|
            0 <= i < routes.len() && serves(#[trigger] routes[i], m, path_segments(path))
                && route_spec(routes, m, path) == Ok::<Seq<char>, RouteError>(routes[i].service),
{
    let segs = path_segments(path);
    if !exists|c: int| is_best(routes, m, segs, c) {
        let w = choose|i: int| 0 <= i < routes.len() && serves(#[trigger] routes[i], m, segs);
        let b = lemma_best_in_prefix(routes, m, segs, routes.len() as int, w);
        assert(is_best(routes, m, segs, b));
    }
    let c = choose|c: int| is_best(routes, m, segs, c);
    assert(serves(routes[c], m, segs));
}

/// Route `b` is among the first `n`, serves the request, and none of the
/// first `n` that serve it outranks it.
pub open spec fn best_among(routes: Seq<RouteView>, m: Method, segs: Seq<Seq<u8>>, n: int, b: int) -> bool {
    &&& 0 <= b < n
    &&& serves(routes[b], m, segs)
    &&& forall|k: int|
        0 <= k < n && serves(#[trigger] routes[k], m, segs) ==> !outranks(
            routes[k].pattern,
            routes[b].pattern,
        )
}

/// Among the first `n` routes, if any serves the request, one of those that
/// serve it is outranked by none of them.
proof fn lemma_best_in_prefix(routes: Seq<RouteView>, m: Method, segs: Seq<Seq<u8>>, n: int, w: int) -> (b: int)
    requires
        0 <= w < n <= routes.len(),
        serves(routes[w], m, segs),
    ensures
        best_among(routes, m, segs, n, b),
    decreases n,
{
    let last = n - 1;
    if w < last {
        let b = lemma_best_in_prefix(routes, m, segs, last, w);
        if serves(routes[last], m, segs) && outranks(routes[last].pattern, routes[b].pattern) {
            assert forall|k: int| 0 <= k < n && serves(#[trigger] routes[k], m, segs) implies !outranks(
                routes[k].pattern,
                routes[last].pattern,
            ) by {
                lemma_outranks_irreflexive(routes[last].pattern);
                if outranks(routes[k].pattern, routes[last].pattern) {
                    lemma_outranks_transitive(routes[k].pattern, routes[last].pattern, routes[b].pattern);
                }
            }
            last
        } else {
            b
        }
    } else {
        if exists|k: int| 0 <= k < last && serves(#[trigger] routes[k], m, segs) {
            let k0 = choose|k: int| 0 <= k < last && serves(#[trigger] routes[k], m, segs);
            let b = lemma_best_in_prefix(routes, m, segs, last, k0);
            if outranks(routes[last].pattern, routes[b].pattern) {
                assert forall|k: int| 0 <= k < n && serves(#[trigger] routes[k], m, segs) implies !outranks(
                    routes[k].pattern,
                    routes[last].pattern,
                ) by {
                    lemma_outranks_irreflexive(routes[last].pattern);
                    if outranks(routes[k].pattern, routes[last].pattern) {
                        lemma_outranks_transitive(routes[k].pattern, routes[last].pattern, routes[b].pattern);
                    }
                }
                last
            } else {
                b
            }
        } else {
            lemma_outranks_irreflexive(routes[last].pattern);
            last
        }
    }
}

} // verus!
