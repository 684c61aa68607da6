//! Path templates and the route table: registration, matching a request's
//! method and path against the registered routes, and route parameters.
use vstd::prelude::*;
use crate::request::{method_of, HTTPMethod, Request};
use crate::str_map::{lookup, map_of, StrMap};
use crate::text::{
    chars_of, copy_range, decode_spaces, decode_spaces_exec, split, split_exec, string_of, views,
};

verus! {

/// The separator of path segments.
pub open spec fn slash() -> Seq<char> {
    seq!['/']
}

/// The separator between the method and the template of a route definition.
pub open spec fn space() -> Seq<char> {
    seq![' ']
}

/// Whether a template segment is a named capture (`:name`).
pub open spec fn is_capture(seg: Seq<char>) -> bool {
    seg.len() > 0 && seg[0] == ':'
}

/// Whether the path segment `p` matches the template segment `t`: a capture
/// takes any non-empty segment, any other segment matches only itself.
pub open spec fn segment_matches(t: Seq<char>, p: Seq<char>) -> bool {
    if is_capture(t) {
        p.len() > 0
    } else {
        p == t
    }
}

/// Whether the path segments `ps` match the template segments `ts` as a
/// whole: as many segments, each matching.
pub open spec fn segments_match(ts: Seq<Seq<char>>, ps: Seq<Seq<char>>) -> bool {
    ts.len() == ps.len() && forall|i: int| 0 <= i < ts.len() ==> segment_matches(ts[i], ps[i])
}

/// The parameter writes of the first `n` segments: for each capture, its
/// name and the decoded path segment in its place.
pub open spec fn params_writes(ts: Seq<Seq<char>>, ps: Seq<Seq<char>>, n: int) -> Seq<
    (Seq<char>, Seq<char>),
>
    decreases n,
{
    if n <= 0 {
        Seq::empty()
    } else if is_capture(ts[n - 1]) {
        params_writes(ts, ps, n - 1).push((ts[n - 1].drop_first(), decode_spaces(ps[n - 1])))
    } else {
        params_writes(ts, ps, n - 1)
    }
}

/// The parameters that a path with segments `ps` gives for template `ts`.
pub open spec fn params_of(ts: Seq<Seq<char>>, ps: Seq<Seq<char>>) -> Map<Seq<char>, Seq<char>> {
    map_of(params_writes(ts, ps, ts.len() as int))
}

/// What a registered route holds: its method and its template's segments.
pub struct RouteModel {
    pub method: HTTPMethod,
    pub segments: Seq<Seq<char>>,
}

/// The indices among the first `n` routes whose template matches `ps`, in
/// registration order.
pub open spec fn matching(routes: Seq<RouteModel>, ps: Seq<Seq<char>>, n: int) -> Seq<int>
    decreases n,
{
    if n <= 0 {
        Seq::empty()
    } else if segments_match(routes[n - 1].segments, ps) {
        matching(routes, ps, n - 1).push(n - 1)
    } else {
        matching(routes, ps, n - 1)
    }
}

/// The first of the candidate routes `c` that is registered for method `m`.
pub open spec fn first_of_method(routes: Seq<RouteModel>, c: Seq<int>, m: HTTPMethod) -> Option<
    int,
>
    decreases c.len(),
{
    if c.len() == 0 {
        None
    } else if routes[c[0]].method == m {
        Some(c[0])
    } else {
        first_of_method(routes, c.drop_first(), m)
    }
}

/// How a request resolves against the route table.
pub enum Resolution {
    /// The route with this index handles the request.
    Handler(int),
    /// No route's template matches the path.
    NotFound,
    /// Some template matches the path, but none for the request's method.
    NotAllowed,
}

/// The resolution of method `m` and path `path`: the routes whose template
/// matches the path are the candidates, in registration order; the first
/// candidate for `m` wins.
pub open spec fn resolve(routes: Seq<RouteModel>, m: HTTPMethod, path: Seq<char>) -> Resolution {
    let c = matching(routes, split(path, slash()), routes.len() as int);
    if c.len() == 0 {
        Resolution::NotFound
    } else {
        match first_of_method(routes, c, m) {
            Some(i) => Resolution::Handler(i),
            None => Resolution::NotAllowed,
        }
    }
}

/// Why a route definition was refused.
#[derive(Debug)]
pub enum RouteError {
    /// The definition does not start with a method of the closed set.
    InvalidMethod,
    /// The definition has no template after the method.
    Malformed,
}

/// The method and template of a definition `"<METHOD> <template>"`.
pub open spec fn definition_of(d: Seq<char>) -> Result<(HTTPMethod, Seq<char>), RouteError> {
    let parts = split(d, space());
    match method_of(parts[0]) {
        None => Err(RouteError::InvalidMethod),
        Some(m) => if parts.len() < 2 {
            Err(RouteError::Malformed)
        } else {
            Ok((m, parts[1]))
        },
    }
}

/// The routes that the first `n` definitions of `defs` register, or the
/// error of the first one that is refused.
pub open spec fn routes_of(defs: Seq<Seq<char>>, n: int) -> Result<Seq<RouteModel>, RouteError>
    decreases n,
{
    if n <= 0 {
        Ok(Seq::empty())
    } else {
        match routes_of(defs, n - 1) {
            Err(e) => Err(e),
            Ok(rs) => match definition_of(defs[n - 1]) {
                Err(e) => Err(e),
                Ok((m, t)) => Ok(rs.push(RouteModel { method: m, segments: split(t, slash()) })),
            },
        }
    }
}

/// A path with its route parameters, each set to the empty text until a
/// value is added.
pub struct Route {
    path: String,
    params: StrMap,
}

/// The capture names of the first `n` segments, each with an empty value.
pub open spec fn empty_params(ts: Seq<Seq<char>>, n: int) -> Seq<(Seq<char>, Seq<char>)>
    decreases n,
{
    if n <= 0 {
        Seq::empty()
    } else if is_capture(ts[n - 1]) {
        empty_params(ts, n - 1).push((ts[n - 1].drop_first(), Seq::<char>::empty()))
    } else {
        empty_params(ts, n - 1)
    }
}

impl Route {
    /// The route for `path`, with an empty value for each `:name` segment.
    pub fn new(path: &str) -> (r: Route)
        ensures
            r.path_view() == path@,
            r.params_view() == map_of(empty_params(split(path@, slash()), split(path@, slash()).len() as int)),
    {
        let cs = chars_of(path);
        let mut sep: Vec<char> = Vec::new();
        sep.push('/');
        assert(sep@ =~= slash());
        let segments = split_exec(&cs, &sep);
        let ghost ts = views(segments@);
        let mut params = StrMap::new();
        let mut i: usize = 0;
        while i < segments.len()
            invariant
                i <= segments.len(),
                ts == views(segments@),
                params.writes() == empty_params(ts, i as int),
            decreases segments.len() - i,
        {
            let seg = &segments[i];
            assert(ts[i as int] == seg@);
            if seg.len() > 0 && seg[0] == ':' {
                let name = string_of(copy_range(seg, 1, seg.len()).as_slice());
                assert(seg@.subrange(1, seg@.len() as int) =~= seg@.drop_first());
                params.insert(name, String::new());
            }
            i = i + 1;
        }
        Route { path: String::from_str(path), params }
    }

    /// The path, as given.
    pub closed spec fn path_view(&self) -> Seq<char> {
        self.path@
    }

    /// The parameters.
    pub closed spec fn params_view(&self) -> Map<Seq<char>, Seq<char>> {
        self.params@
    }

    /// The path, as given.
    pub fn path(&self) -> (r: &str)
        ensures
            r@ == self.path_view(),
    {
        self.path.as_str()
    }

    /// The parameters.
    pub fn params(&self) -> (r: &StrMap)
        ensures
            r@ == self.params_view(),
    {
        &self.params
    }

    /// Sets parameter `key` to `value`.
    pub fn add_param(&mut self, key: &str, value: &str)
        ensures
            final(self).path_view() == old(self).path_view(),
            final(self).params_view() == old(self).params_view().insert(key@, value@),
    {
        self.params.insert(String::from_str(key), String::from_str(value));
    }
}

/// A registered route: its handler, its method and its template's segments.
pub struct RouteHandler<H> {
    handler_fn: H,
    method: HTTPMethod,
    pattern: Vec<Vec<char>>,
}

impl<H> View for RouteHandler<H> {
    type V = RouteModel;

    closed spec fn view(&self) -> RouteModel {
        RouteModel { method: self.method, segments: views(self.pattern@) }
    }
}

impl<H> RouteHandler<H> {
    /// The route for `method` and the path template `template`.
    pub fn new(handler: H, method: HTTPMethod, template: &str) -> (r: RouteHandler<H>)
        ensures
            r@ == (RouteModel { method, segments: split(template@, slash()) }),
            r.handler() == handler,
    {
        let cs = chars_of(template);
        let mut sep: Vec<char> = Vec::new();
        sep.push('/');
        assert(sep@ =~= slash());
        let pattern = split_exec(&cs, &sep);
        RouteHandler { handler_fn: handler, method, pattern }
    }

    /// The handler.
    pub closed spec fn handler(&self) -> H {
        self.handler_fn
    }

    /// The handler.
    pub fn handler_fn(&self) -> (r: &H)
        ensures
            *r == self.handler(),
    {
        &self.handler_fn
    }

    /// The method the route is registered for.
    pub fn method(&self) -> (r: HTTPMethod)
        ensures
            r == self@.method,
    {
        self.method
    }

    /// The segments of the path template.
    pub fn pattern(&self) -> (r: &Vec<Vec<char>>)
        ensures
            views(r@) == self@.segments,
    {
        &self.pattern
    }

    /// Whether the path segments `parts` match the template as a whole.
    pub fn matches(&self, parts: &Vec<Vec<char>>) -> (r: bool)
        ensures
            r == segments_match(self@.segments, views(parts@)),
    {
        let ghost ts = self@.segments;
        let ghost ps = views(parts@);
        if self.pattern.len() != parts.len() {
            return false;
        }
        let mut i: usize = 0;
        while i < parts.len()
            invariant
                i <= parts.len() == self.pattern.len(),
                ts == views(self.pattern@),
                ps == views(parts@),
                forall|j: int| 0 <= j < i ==> segment_matches(ts[j], ps[j]),
            decreases parts.len() - i,
        {
            let t = &self.pattern[i];
            let p = &parts[i];
            assert(ts[i as int] == t@ && ps[i as int] == p@);
            let ok = if t.len() > 0 && t[0] == ':' {
                p.len() > 0
            } else {
                crate::text::same_chars(t, p)
            };
            if !ok {
                return false;
            }
            i = i + 1;
        }
        true
    }

    /// The route parameters that the path segments `parts` give.
    pub fn parse_params(&self, parts: &Vec<Vec<char>>) -> (r: StrMap)
        requires
            parts.len() == self@.segments.len(),
        ensures
            r.writes() == params_writes(self@.segments, views(parts@), parts.len() as int),
            r@ == params_of(self@.segments, views(parts@)),
    {
        let ghost ts = self@.segments;
        let ghost ps = views(parts@);
        let mut params = StrMap::new();
        let mut i: usize = 0;
        while i < parts.len()
            invariant
                i <= parts.len() == self.pattern.len(),
                ts == views(self.pattern@),
                ps == views(parts@),
                params.writes() == params_writes(ts, ps, i as int),
            decreases parts.len() - i,
        {
            let t = &self.pattern[i];
            let p = &parts[i];
            assert(ts[i as int] == t@ && ps[i as int] == p@);
            if t.len() > 0 && t[0] == ':' {
                let name = string_of(copy_range(t, 1, t.len()).as_slice());
                assert(t@.subrange(1, t@.len() as int) =~= t@.drop_first());
                let value = string_of(decode_spaces_exec(p).as_slice());
                params.insert(name, value);
            }
            i = i + 1;
        }
        params
    }
}

/// The outcome of routing a request.
pub enum RouteMatch {
    /// The route with this index handles the request, with these parameters.
    Found(usize, StrMap),
    /// No route's template matches the path (answered with 404).
    NoMatch,
    /// A template matches, but not for this method (answered with 405).
    MethodNotAllowed,
}

/// The route table, in registration order.
pub struct Router<H> {
    route_handlers: Vec<RouteHandler<H>>,
}

impl<H> View for Router<H> {
    type V = Seq<RouteModel>;

    closed spec fn view(&self) -> Seq<RouteModel> {
        self.route_handlers@.map_values(|r: RouteHandler<H>| r@)
    }
}

impl<H> Router<H> {
    /// The handler of route `i`.
    pub closed spec fn handler(&self, i: int) -> H {
        self.route_handlers@[i].handler()
    }

    /// An empty table.
    pub fn new() -> (r: Router<H>)
        ensures
            r@.len() == 0,
    {
        let r = Router { route_handlers: Vec::new() };
        assert(r@ =~= Seq::<RouteModel>::empty());
        r
    }

    /// The number of routes.
    pub fn len(&self) -> (r: usize)
        ensures
            r == self@.len(),
    {
        self.route_handlers.len()
    }

    /// Route `i`.
    pub fn route_at(&self, i: usize) -> (r: &RouteHandler<H>)
        requires
            i < self@.len(),
        ensures
            r@ == self@[i as int],
            r.handler() == self.handler(i as int),
    {
        &self.route_handlers[i]
    }

    /// Adds a route for `method` and `template` after those registered so far.
    pub fn register(&mut self, method: HTTPMethod, template: &str, handler: H)
        ensures
            final(self)@ == old(self)@.push(
                RouteModel { method, segments: split(template@, slash()) },
            ),
            final(self).handler(old(self)@.len() as int) == handler,
            forall|i: int| 0 <= i < old(self)@.len() ==> final(self).handler(i) == old(self).handler(i),
    {
        let route = RouteHandler::new(handler, method, template);
        let ghost before = self@;
        self.route_handlers.push(route);
        assert(self@ =~= before.push(route@));
    }

    /// Adds the route `definition` (`"<METHOD> <template>"`) with `handler`.
    pub fn add_route_handler(&mut self, definition: &str, handler: H) -> (r: Result<(), RouteError>)
        ensures
            match definition_of(definition@) {
                Ok((m, t)) => r is Ok && final(self)@ == old(self)@.push(
                    RouteModel { method: m, segments: split(t, slash()) },
                ) && final(self).handler(old(self)@.len() as int) == handler,
                Err(e) => r == Err::<(), RouteError>(e) && final(self)@ == old(self)@,
            },
            forall|i: int| 0 <= i < old(self)@.len() ==> final(self).handler(i) == old(self).handler(i),
    {
        let cs = chars_of(definition);
        let mut sep: Vec<char> = Vec::new();
        sep.push(' ');
        assert(sep@ =~= space());
        let parts = split_exec(&cs, &sep);
        proof {
            crate::request::lemma_split_nonempty(cs@, sep@, 0, 0);
        }
        assert(views(parts@)[0] == parts@[0]@);
        let method = match HTTPMethod::from_chars(&parts[0]) {
            Ok(m) => m,
            Err(_) => return Err(RouteError::InvalidMethod),
        };
        if parts.len() < 2 {
            return Err(RouteError::Malformed);
        }
        assert(views(parts@)[1] == parts@[1]@);
        let template = string_of(parts[1].as_slice());
        self.register(method, template.as_str(), handler);
        Ok(())
    }

    /// Adds the routes `handlers` (definition and handler each) in order,
    /// stopping at the first definition that is refused.
    pub fn route_handlers(&mut self, handlers: &[(&str, H)]) -> (r: Result<(), RouteError>)
        where
            H: Copy,
        ensures
            match routes_of(handlers@.map_values(|p: (&str, H)| p.0@), handlers@.len() as int) {
                Ok(rs) => r is Ok && final(self)@ == old(self)@ + rs,
                Err(e) => r == Err::<(), RouteError>(e),
            },
            old(self)@.len() <= final(self)@.len(),
            final(self)@.subrange(0, old(self)@.len() as int) == old(self)@,
    {
        let ghost defs = handlers@.map_values(|p: (&str, H)| p.0@);
        let ghost start = self@;
        let mut i: usize = 0;
        assert(start + Seq::<RouteModel>::empty() =~= start);
        while i < handlers.len()
            invariant
                i <= handlers@.len(),
                defs == handlers@.map_values(|p: (&str, H)| p.0@),
                start == old(self)@,
                routes_of(defs, i as int) matches Ok(rs) && self@ == start + rs,
            decreases handlers@.len() - i,
        {
            let (definition, handler) = handlers[i];
            assert(defs[i as int] == definition@);
            let ghost before = self@;
            match self.add_route_handler(definition, handler) {
                Ok(()) => {},
                Err(e) => {
                    proof {
                        lemma_routes_of_err_extends(defs, i as int + 1, handlers@.len() as int);
                        assert(start.len() <= before.len());
                        assert(before.subrange(0, start.len() as int) =~= start);
                    }
                    return Err(e);
                },
            }
            proof {
                let rs = routes_of(defs, i as int)->Ok_0;
                let nm = RouteModel { method: definition_of(defs[i as int])->Ok_0.0, segments: split(definition_of(defs[i as int])->Ok_0.1, slash()) };
                assert(start + rs.push(nm) =~= (start + rs).push(nm));
            }
            i = i + 1;
        }
        proof {
            let rs = routes_of(defs, i as int)->Ok_0;
            assert((start + rs).subrange(0, start.len() as int) =~= start);
        }
        Ok(())
    }

    /// The indices of the routes whose template matches the path segments
    /// `parts`, in registration order.
    pub fn find_matching_handlers(&self, parts: &Vec<Vec<char>>) -> (r: Vec<usize>)
        ensures
            r@.map_values(|i: usize| i as int) == matching(self@, views(parts@), self@.len() as int),
    {
        let mut found: Vec<usize> = Vec::new();
        let mut i: usize = 0;
        while i < self.route_handlers.len()
            invariant
                i <= self.route_handlers.len() == self@.len(),
                found@.map_values(|k: usize| k as int) == matching(self@, views(parts@), i as int),
            decreases self.route_handlers.len() - i,
        {
            assert(self@[i as int] == self.route_handlers@[i as int]@);
            if self.route_handlers[i].matches(parts) {
                let ghost before = found@;
                found.push(i);
                assert(found@.map_values(|k: usize| k as int) =~= before.map_values(
                    |k: usize| k as int,
                ).push(i as int));
            }
            i = i + 1;
        }
        found
    }

    /// The first of the candidate routes `handlers` registered for `method`.
    pub fn find_handler_for_method(&self, handlers: &Vec<usize>, method: HTTPMethod) -> (r: Option<
        usize,
    >)
        requires
            forall|k: int| 0 <= k < handlers@.len() ==> handlers@[k] < self@.len(),
        ensures
            match r {
                Some(i) => first_of_method(self@, handlers@.map_values(|i: usize| i as int), method)
                    == Some(i as int),
                None => first_of_method(self@, handlers@.map_values(|i: usize| i as int), method)
                    is None,
            },
    {
        let ghost c = handlers@.map_values(|i: usize| i as int);
        assert(c.subrange(0, c.len() as int) =~= c);
        let mut k: usize = 0;
        while k < handlers.len()
            invariant
                k <= handlers.len(),
                c == handlers@.map_values(|i: usize| i as int),
                forall|j: int| 0 <= j < handlers@.len() ==> handlers@[j] < self@.len(),
                first_of_method(self@, c, method) == first_of_method(
                    self@,
                    c.subrange(k as int, c.len() as int),
                    method,
                ),
            decreases handlers.len() - k,
        {
            let i = handlers[k];
            let ghost rest = c.subrange(k as int, c.len() as int);
            assert(rest[0] == i as int);
            assert(rest.drop_first() =~= c.subrange(k + 1, c.len() as int));
            assert(self@[i as int] == self.route_handlers@[i as int]@);
            if self.route_handlers[i].method == method {
                return Some(i);
            }
            k = k + 1;
        }
        assert(c.subrange(k as int, c.len() as int).len() == 0);
        None
    }

    /// Routes method `method` and path `path`: the first route, in
    /// registration order, whose template matches the path and whose method
    /// is `method`, with the parameters the path gives it.
    pub fn route(&self, method: HTTPMethod, path: &str) -> (r: RouteMatch)
        ensures
            match r {
                RouteMatch::Found(i, params) => resolve(self@, method, path@) == Resolution::Handler(
                    i as int,
                ) && i < self@.len() && params@ == params_of(self@[i as int].segments, split(path@, slash())),
                RouteMatch::NoMatch => resolve(self@, method, path@) == Resolution::NotFound,
                RouteMatch::MethodNotAllowed => resolve(self@, method, path@)
                    == Resolution::NotAllowed,
            },
    {
        let cs = chars_of(path);
        let mut sep: Vec<char> = Vec::new();
        sep.push('/');
        assert(sep@ =~= slash());
        let parts = split_exec(&cs, &sep);
        let handlers = self.find_matching_handlers(&parts);
        if handlers.len() == 0 {
            assert(handlers@.map_values(|i: usize| i as int).len() == 0);
            return RouteMatch::NoMatch;
        }
        proof {
            lemma_matching_members(self@, views(parts@), self@.len() as int);
            assert forall|k: int| 0 <= k < handlers@.len() implies handlers@[k] < self@.len() by {
                assert(handlers@.map_values(|i: usize| i as int)[k] == handlers@[k] as int);
            }
        }
        match self.find_handler_for_method(&handlers, method) {
            Some(i) => {
                proof {
                    lemma_first_of_method_member(
                        self@,
                        handlers@.map_values(|i: usize| i as int),
                        method,
                    );
                }
                let route = &self.route_handlers[i];
                assert(self@[i as int] == route@);
                let params = route.parse_params(&parts);
                RouteMatch::Found(i, params)
            },
            None => RouteMatch::MethodNotAllowed,
        }
    }

    /// Routes `request` by its method and path, attaching the parameters to
    /// it when a route is found. Gives the index of the route, or the status
    /// (404 or 405) to answer with.
    pub fn route_request(&self, request: &mut Request) -> (r: Result<usize, u16>)
        ensures
            match resolve(self@, old(request)@.line.method, old(request)@.line.path) {
                Resolution::Handler(i) => r matches Ok(k) && k == i && 0 <= i < self@.len() && final(request)@ == (
                crate::request::RequestModel {
                    params: params_of(self@[i].segments, split(old(request)@.line.path, slash())),
                    ..old(request)@
                }),
                Resolution::NotFound => r == Err::<usize, u16>(404) && final(request)@ == old(
                    request,
                )@,
                Resolution::NotAllowed => r == Err::<usize, u16>(405) && final(request)@ == old(
                    request,
                )@,
            },
    {
        let method = *request.method();
        match self.route(method, request.request_line().path()) {
            RouteMatch::Found(i, params) => {
                request.add_params(params);
                Ok(i)
            },
            RouteMatch::NoMatch => Err(404),
            RouteMatch::MethodNotAllowed => Err(405),
        }
    }
}

/// Every index that `matching` lists is a route whose template matches, and
/// the list rises strictly.
pub proof fn lemma_matching_members(routes: Seq<RouteModel>, ps: Seq<Seq<char>>, n: int)
    requires
        n <= routes.len(),
    ensures
        forall|k: int|
            0 <= k < matching(routes, ps, n).len() ==> 0 <= #[trigger] matching(routes, ps, n)[k]
                < n && segments_match(routes[matching(routes, ps, n)[k]].segments, ps),
        forall|a: int, b: int|
            0 <= a < b < matching(routes, ps, n).len() ==> matching(routes, ps, n)[a] < matching(
                routes,
                ps,
                n,
            )[b],
        forall|i: int|
            0 <= i < n && segments_match(routes[i].segments, ps) ==> matching(
                routes,
                ps,
                n,
            ).contains(i),
    decreases n,
{
    if n > 0 {
        lemma_matching_members(routes, ps, n - 1);
        let prev = matching(routes, ps, n - 1);
        if segments_match(routes[n - 1].segments, ps) {
            assert(prev.push(n - 1)[prev.len() as int] == n - 1);
            assert forall|i: int|
                0 <= i < n && segments_match(routes[i].segments, ps) implies matching(
                routes,
                ps,
                n,
            ).contains(i) by {
                if i < n - 1 {
                    assert(prev.contains(i));
                    let k = choose|k: int| 0 <= k < prev.len() && prev[k] == i;
                    assert(prev.push(n - 1)[k] == i);
                }
            }
        } else {
            assert forall|i: int|
                0 <= i < n && segments_match(routes[i].segments, ps) implies matching(
                routes,
                ps,
                n,
            ).contains(i) by {
                assert(i != n - 1);
                assert(prev.contains(i));
            }
        }
    }
}

/// The route that `first_of_method` picks is one of the candidates, is
/// registered for the method, and no earlier candidate is.
pub proof fn lemma_first_of_method_member(routes: Seq<RouteModel>, c: Seq<int>, m: HTTPMethod)
    ensures
        match first_of_method(routes, c, m) {
            Some(i) => exists|k: int|
                0 <= k < c.len() && c[k] == i && routes[i].method == m && forall|j: int|
                    0 <= j < k ==> routes[c[j]].method != m,
            None => forall|k: int| 0 <= k < c.len() ==> routes[c[k]].method != m,
        },
    decreases c.len(),
{
    if c.len() > 0 {
        lemma_first_of_method_member(routes, c.drop_first(), m);
        if routes[c[0]].method != m {
            match first_of_method(routes, c.drop_first(), m) {
                Some(i) => {
                    let k = choose|k: int|
                        0 <= k < c.drop_first().len() && c.drop_first()[k] == i
                            && routes[i].method == m && forall|j: int|
                            0 <= j < k ==> routes[c.drop_first()[j]].method != m;
                    assert(c[k + 1] == i);
                    assert forall|j: int| 0 <= j < k + 1 implies routes[c[j]].method != m by {
                        if j > 0 {
                            assert(c[j] == c.drop_first()[j - 1]);
                        }
                    }
                },
                None => {
                    assert forall|k: int| 0 <= k < c.len() implies routes[c[k]].method != m by {
                        if k > 0 {
                            assert(c[k] == c.drop_first()[k - 1]);
                        }
                    }
                },
            }
        }
    }
}

/// For a capture `:name` at segment `i` that no later capture shares, the
/// parameters hold the decoded path segment at `i` under `name`.
proof fn lemma_params_writes_lookup(
    ts: Seq<Seq<char>>,
    ps: Seq<Seq<char>>,
    n: int,
    i: int,
    name: Seq<char>,
)
    requires
        0 <= i < n <= ts.len(),
        ts[i] == seq![':'] + name,
        forall|j: int| i < j < ts.len() && is_capture(ts[j]) ==> ts[j].drop_first() != name,
    ensures
        lookup(params_writes(ts, ps, n), name) == Some(decode_spaces(ps[i])),
    decreases n,
{
    if n == i + 1 {
        assert(ts[i].drop_first() =~= name);
        assert(ts[i][0] == ':');
    } else {
        lemma_params_writes_lookup(ts, ps, n - 1, i, name);
        if is_capture(ts[n - 1]) {
            let w = params_writes(ts, ps, n - 1);
            let x = (ts[n - 1].drop_first(), decode_spaces(ps[n - 1]));
            assert(w.push(x).drop_last() =~= w);
        }
    }
}

/// When a path matches a template, each capture `:name` that no later
/// capture shares extracts exactly the decoded, non-empty path segment in
/// its place.
pub proof fn lemma_capture_extracts(ts: Seq<Seq<char>>, ps: Seq<Seq<char>>, i: int, name: Seq<char>)
    requires
        segments_match(ts, ps),
        0 <= i < ts.len(),
        ts[i] == seq![':'] + name,
        forall|j: int| i < j < ts.len() && is_capture(ts[j]) ==> ts[j].drop_first() != name,
    ensures
        ps[i].len() > 0,
        params_of(ts, ps).contains_key(name),
        params_of(ts, ps)[name] == decode_spaces(ps[i]),
{
    assert(ts[i][0] == ':');
    assert(segment_matches(ts[i], ps[i]));
    lemma_params_writes_lookup(ts, ps, ts.len() as int, i, name);
}

/// A path that no registered template matches resolves to not found (404).
pub proof fn lemma_unregistered_path_not_found(routes: Seq<RouteModel>, m: HTTPMethod, path: Seq<char>)
    requires
        forall|i: int|
            0 <= i < routes.len() ==> !segments_match(routes[i].segments, split(path, slash())),
    ensures
        resolve(routes, m, path) == Resolution::NotFound,
{
    let ps = split(path, slash());
    lemma_matching_members(routes, ps, routes.len() as int);
    let c = matching(routes, ps, routes.len() as int);
    if c.len() > 0 {
        assert(segments_match(routes[c[0]].segments, ps));
    }
}

/// A path that some template matches, requested with a method that no
/// matching route is registered for, resolves to not allowed (405), not to
/// not found.
pub proof fn lemma_unregistered_method_not_allowed(
    routes: Seq<RouteModel>,
    m: HTTPMethod,
    path: Seq<char>,
)
    requires
        exists|i: int|
            0 <= i < routes.len() && segments_match(routes[i].segments, split(path, slash())),
        forall|i: int|
            0 <= i < routes.len() && segments_match(routes[i].segments, split(path, slash()))
                ==> routes[i].method != m,
    ensures
        resolve(routes, m, path) == Resolution::NotAllowed,
{
    let ps = split(path, slash());
    lemma_matching_members(routes, ps, routes.len() as int);
    let c = matching(routes, ps, routes.len() as int);
    let i = choose|i: int| 0 <= i < routes.len() && segments_match(routes[i].segments, ps);
    assert(c.contains(i));
    lemma_first_of_method_member(routes, c, m);
    if let Some(j) = first_of_method(routes, c, m) {
        let k = choose|k: int|
            0 <= k < c.len() && c[k] == j && routes[j].method == m && forall|l: int|
                0 <= l < k ==> routes[c[l]].method != m;
        assert(segments_match(routes[c[k]].segments, ps));
    }
}

/// The route that handles a request is the first registered one whose
/// template matches the path and whose method is the request's.
#[verifier::rlimit(40)]
pub proof fn lemma_first_registered_wins(
    routes: Seq<RouteModel>,
    m: HTTPMethod,
    path: Seq<char>,
    i: int,
)
    requires
        0 <= i < routes.len(),
        segments_match(routes[i].segments, split(path, slash())),
        routes[i].method == m,
        forall|j: int|
            0 <= j < i ==> !(segments_match(routes[j].segments, split(path, slash()))
                && routes[j].method == m),
    ensures
        resolve(routes, m, path) == Resolution::Handler(i),
{
    let ps = split(path, slash());
    lemma_matching_members(routes, ps, routes.len() as int);
    let c = matching(routes, ps, routes.len() as int);
    assert(c.contains(i));
    let k0 = choose|k: int| 0 <= k < c.len() && c[k] == i;
    lemma_first_of_method_member(routes, c, m);
    match first_of_method(routes, c, m) {
        Some(j) => {
            let k = choose|k: int|
                0 <= k < c.len() && c[k] == j && routes[j].method == m && forall|l: int|
                    0 <= l < k ==> routes[c[l]].method != m;
            assert(segments_match(routes[j].segments, ps));
            if k0 < k {
                assert(routes[c[k0]].method != m);
            } else if k < k0 {
                assert(c[k] < c[k0]);
                assert(!(segments_match(routes[j].segments, ps) && routes[j].method == m));
            }
        },
        None => {
            assert(routes[c[k0]].method != m);
        },
    }
}

/// Once a definition is refused, every longer run of definitions is refused
/// with the same error.
pub proof fn lemma_routes_of_err_extends(defs: Seq<Seq<char>>, n: int, m: int)
    requires
        0 <= n <= m,
        routes_of(defs, n) is Err,
    ensures
        routes_of(defs, m) == routes_of(defs, n),
    decreases m - n,
{
    if n < m {
        lemma_routes_of_err_extends(defs, n, m - 1);
    }
}

} // verus!
