//! The router: routes are a method and a `/`-separated pattern whose segments are
//! literal or `:name`; a request goes to an exact route first, else to the first
//! registered pattern that fits its path.

use vstd::prelude::*;
use crate::request::Request;
use crate::text::{
    char_vec, decode_spaces, same_chars, spaces_decoded, split_chars, split_on, sub_chars, text_of,
    views,
};

verus! {

/// One registered route.
pub struct Route<H> {
    pub method: String,
    pub pattern: String,
    pub handler: H,
}

/// A path parameter: the name after `:` in the pattern, and the path segment it took.
#[derive(Debug)]
pub struct Param {
    pub name: String,
    pub value: String,
}

impl View for Param {
    type V = (Seq<char>, Seq<char>);

    open spec fn view(&self) -> (Seq<char>, Seq<char>) {
        (self.name@, self.value@)
    }
}

/// The views of a list of parameters.
pub open spec fn param_views(ps: Seq<Param>) -> Seq<(Seq<char>, Seq<char>)> {
    ps.map_values(|p: Param| p@)
}

/// A pattern segment that takes any path segment.
pub open spec fn is_param(seg: Seq<char>) -> bool {
    seg.len() > 0 && seg[0] == ':'
}

/// A pattern segment fits a path segment when it is a parameter or the same text.
pub open spec fn segment_fits(pat: Seq<char>, seg: Seq<char>) -> bool {
    is_param(pat) || pat == seg
}

/// The pattern has as many segments as the path, and each fits.
pub open spec fn pattern_fits(pattern: Seq<char>, path: Seq<char>) -> bool {
    let ps = split_on(pattern, '/');
    let qs = split_on(path, '/');
    ps.len() == qs.len() && forall|i: int| 0 <= i < ps.len() ==> #[trigger] segment_fits(ps[i], qs[i])
}

/// The parameters that the first `n` segments bind, in order.
pub open spec fn bindings(ps: Seq<Seq<char>>, qs: Seq<Seq<char>>, n: nat) -> Seq<
    (Seq<char>, Seq<char>),
>
    decreases n,
{
    if n == 0 {
        Seq::empty()
    } else {
        let b = bindings(ps, qs, (n - 1) as nat);
        if is_param(ps[n - 1]) {
            b.push((ps[n - 1].skip(1), qs[n - 1]))
        } else {
            b
        }
    }
}

/// The parameters that a pattern binds on a path.
pub open spec fn bound_params(pattern: Seq<char>, path: Seq<char>) -> Seq<(Seq<char>, Seq<char>)> {
    let ps = split_on(pattern, '/');
    bindings(ps, split_on(path, '/'), ps.len())
}

/// Matches a path against a pattern, giving the parameters it binds.
pub fn match_route(route_key: &str, path: &str) -> (r: Option<Vec<Param>>)
    ensures
        r is Some <==> pattern_fits(route_key@, path@),
        r matches Some(ps) ==> param_views(ps@) == bound_params(route_key@, path@),
{
    let ps = split_chars(char_vec(route_key).as_slice(), '/');
    let qs = split_chars(char_vec(path).as_slice(), '/');
    let ghost pv = split_on(route_key@, '/');
    let ghost qv = split_on(path@, '/');
    if ps.len() != qs.len() {
        assert(views(ps@).len() == ps@.len());
        assert(views(qs@).len() == qs@.len());
        return None;
    }
    let mut params: Vec<Param> = Vec::new();
    let mut i: usize = 0;
    while i < ps.len()
        invariant
            pv == split_on(route_key@, '/'),
            qv == split_on(path@, '/'),
            views(ps@) == pv,
            views(qs@) == qv,
            ps@.len() == qs@.len(),
            i <= ps@.len(),
            forall|j: int| 0 <= j < i ==> segment_fits(pv[j], qv[j]),
            param_views(params@) == bindings(pv, qv, i as nat),
        decreases ps@.len() - i,
    {
        let seg = &ps[i];
        let part = &qs[i];
        assert(pv[i as int] == seg@ && qv[i as int] == part@);
        if seg.len() > 0 && seg[0] == ':' {
            let name = text_of(sub_chars(seg.as_slice(), 1, seg.len()).as_slice());
            let value = text_of(part.as_slice());
            let ghost before = param_views(params@);
            let p = Param { name, value };
            let ghost v = p@;
            params.push(p);
            proof {
                assert(seg@.subrange(1, seg@.len() as int) =~= seg@.skip(1));
                assert(param_views(params@) =~= before.push(v));
            }
        } else if !same_chars(seg.as_slice(), part.as_slice()) {
            assert(!segment_fits(pv[i as int], qv[i as int]));
            return None;
        }
        i += 1;
    }
    Some(params)
}

/// A route table, kept in the order of registration, with one route per method
/// and pattern.
pub struct Router<H> {
    routes: Vec<Route<H>>,
}

/// The result of routing a request: the chosen route and the parameters it bound.
#[derive(Debug)]
pub struct RouteMatch {
    pub route: usize,
    pub params: Vec<Param>,
}

/// Method and pattern of each route, in order.
pub open spec fn keys_of<H>(rs: Seq<Route<H>>) -> Seq<(Seq<char>, Seq<char>)> {
    rs.map_values(|r: Route<H>| (r.method@, r.pattern@))
}

/// No two keys are the same.
pub open spec fn keys_unique(ks: Seq<(Seq<char>, Seq<char>)>) -> bool {
    forall|i: int, j: int| 0 <= i < j < ks.len() ==> #[trigger] ks[i] != #[trigger] ks[j]
}

impl<H> Router<H> {
    /// Method and pattern of each route, in order.
    pub closed spec fn keys(&self) -> Seq<(Seq<char>, Seq<char>)> {
        keys_of(self.routes@)
    }

    /// The handler of each route, in order.
    pub closed spec fn handlers(&self) -> Seq<H> {
        self.routes@.map_values(|r: Route<H>| r.handler)
    }

    /// No two routes share method and pattern.
    #[verifier::type_invariant]
    spec fn inv(&self) -> bool {
        keys_unique(keys_of(self.routes@))
    }

    /// The route registered for this method and pattern, if any.
    pub open spec fn key_index(&self, method: Seq<char>, pattern: Seq<char>) -> Option<int> {
        if exists|i: int| 0 <= i < self.keys().len() && self.keys()[i] == (method, pattern) {
            Some(choose|i: int| 0 <= i < self.keys().len() && self.keys()[i] == (method, pattern))
        } else {
            None
        }
    }

    /// Route `i` takes this method and the (decoded) path by its pattern.
    pub open spec fn fits(&self, i: int, method: Seq<char>, path: Seq<char>) -> bool {
        self.keys()[i].0 == method && pattern_fits(self.keys()[i].1, path)
    }

    pub fn new() -> (r: Self)
        ensures
            r.keys().len() == 0,
            r.handlers().len() == 0,
    {
        let r = Router { routes: Vec::new() };
        assert(r.keys() =~= Seq::<(Seq<char>, Seq<char>)>::empty());
        assert(r.handlers() =~= Seq::<H>::empty());
        r
    }

    pub fn len(&self) -> (r: usize)
        ensures
            r == self.keys().len(),
            r == self.handlers().len(),
    {
        self.routes.len()
    }

    /// The place of the route with this method and pattern.
    fn position(&self, m: &String, p: &String) -> (r: Option<usize>)
        ensures
            r is None ==> self.key_index(m@, p@) is None,
            r matches Some(i) ==> i < self.keys().len() && self.key_index(m@, p@) == Some(i as int),
    {
        proof {
            use_type_invariant(self);
        }
        let mut i: usize = 0;
        while i < self.routes.len()
            invariant
                keys_unique(self.keys()),
                i <= self.keys().len(),
                forall|j: int| 0 <= j < i ==> self.keys()[j] != (m@, p@),
            decreases self.keys().len() - i,
        {
            if self.routes[i].method == *m && self.routes[i].pattern == *p {
                proof {
                    let k = self.keys();
                    assert(k[i as int] == (m@, p@));
                    assert forall|j: int| 0 <= j < k.len() && k[j] == (m@, p@) implies j == i by {
                        if j > i {
                            assert(k[i as int] != k[j]);
                        }
                    }
                }
                return Some(i);
            }
            i += 1;
        }
        None
    }

    /// Registers a handler for a method and a pattern; a second registration of the
    /// same method and pattern replaces the handler and keeps its place.
    pub fn add_route(&mut self, method: &str, path: &str, handler: H)
        ensures
            old(self).key_index(method@, path@) matches Some(i) ==> final(self).keys() == old(
                self,
            ).keys() && final(self).handlers() == old(self).handlers().update(i, handler),
            old(self).key_index(method@, path@) is None ==> final(self).keys() == old(
                self,
            ).keys().push((method@, path@)) && final(self).handlers() == old(self).handlers().push(
                handler,
            ),
    {
        proof {
            use_type_invariant(&*self);
        }
        let m = method.to_owned();
        let p = path.to_owned();
        let found = self.position(&m, &p);
        let ghost k = self.keys();
        let ghost hs = self.handlers();
        let mut routes: Vec<Route<H>> = Vec::new();
        assert(keys_unique(keys_of(routes@)));
        std::mem::swap(&mut routes, &mut self.routes);
        match found {
            Some(i) => {
                routes.set(i, Route { method: m, pattern: p, handler });
                proof {
                    assert(keys_of(routes@) =~= k);
                    assert(routes@.map_values(|r: Route<H>| r.handler) =~= hs.update(
                        i as int,
                        handler,
                    ));
                }
            },
            None => {
                routes.push(Route { method: m, pattern: p, handler });
                proof {
                    let nk = keys_of(routes@);
                    assert(nk =~= k.push((method@, path@)));
                    assert(routes@.map_values(|r: Route<H>| r.handler) =~= hs.push(handler));
                    assert forall|a: int, b: int| 0 <= a < b < nk.len() implies #[trigger] nk[a]
                        != #[trigger] nk[b] by {
                        if b == k.len() {
                            assert(nk[a] == k[a]);
                            assert(!(0 <= a < k.len() && k[a] == (method@, path@)));
                        } else {
                            assert(nk[a] == k[a] && nk[b] == k[b]);
                        }
                    }
                }
            },
        }
        self.routes = routes;
    }

    /// Chooses the route for a request: the route registered for exactly its method
    /// and path (with `%20` read as a space), else the first route, in order of
    /// registration, with its method and a pattern that fits the path.
    pub fn handle_request(&self, request: &Request) -> (r: Option<RouteMatch>)
        ensures
            ({
                let p = spaces_decoded(request.path@);
                let m = request.method@;
                &&& self.key_index(m, p) matches Some(i) ==> (r matches Some(found) && found.route
                    == i && found.params@.len() == 0)
                &&& self.key_index(m, p) is None ==> match r {
                    Some(found) => found.route < self.keys().len() && self.fits(
                        found.route as int,
                        m,
                        p,
                    ) && (forall|j: int| 0 <= j < found.route ==> !self.fits(j, m, p))
                        && param_views(found.params@) == bound_params(
                        self.keys()[found.route as int].1,
                        p,
                    ),
                    None => forall|j: int| 0 <= j < self.keys().len() ==> !self.fits(j, m, p),
                }
            }),
    {
        proof {
            use_type_invariant(self);
        }
        let path = text_of(decode_spaces(char_vec(request.path.as_str()).as_slice()).as_slice());
        let ghost p = spaces_decoded(request.path@);
        let ghost m = request.method@;
        let mut i: usize = 0;
        while i < self.routes.len()
            invariant
                keys_unique(self.keys()),
                path@ == p,
                p == spaces_decoded(request.path@),
                m == request.method@,
                i <= self.keys().len(),
                forall|j: int| 0 <= j < i ==> self.keys()[j] != (m, p),
            decreases self.keys().len() - i,
        {
            let ghost k = i as int;
            assert(self.keys()[k] == (self.routes@[k].method@, self.routes@[k].pattern@));
            if self.routes[i].method == request.method && self.routes[i].pattern == path {
                proof {
                    assert forall|j: int|
                        0 <= j < self.keys().len() && self.keys()[j] == (m, p) implies j == i by {
                        if j > i {
                            assert(self.keys()[i as int] != self.keys()[j]);
                        }
                    }
                    assert(self.keys()[i as int] == (m, p));
                    assert(self.key_index(m, p) == Some(i as int));
                }
                return Some(RouteMatch { route: i, params: Vec::new() });
            }
            i += 1;
        }
        assert(self.key_index(m, p) is None);
        let mut i: usize = 0;
        while i < self.routes.len()
            invariant
                path@ == p,
                p == spaces_decoded(request.path@),
                m == request.method@,
                self.key_index(m, p) is None,
                i <= self.keys().len(),
                forall|j: int| 0 <= j < i ==> !self.fits(j, m, p),
            decreases self.keys().len() - i,
        {
            let ghost k = i as int;
            assert(self.keys()[k] == (self.routes@[k].method@, self.routes@[k].pattern@));
            if self.routes[i].method == request.method {
                match match_route(self.routes[i].pattern.as_str(), path.as_str()) {
                    Some(params) => {
                        return Some(RouteMatch { route: i, params });
                    },
                    None => {},
                }
            }
            i += 1;
        }
        None
    }

    /// Each route as its method, a space, and its pattern, in order.
    pub fn list_routes(&self) -> (r: Vec<String>)
        ensures
            r@.len() == self.keys().len(),
            forall|i: int|
                0 <= i < r@.len() ==> #[trigger] r@[i]@ == self.keys()[i].0 + seq![' '] + self.keys()[i].1,
    {
        let mut out: Vec<String> = Vec::new();
        let mut i: usize = 0;
        while i < self.routes.len()
            invariant
                i <= self.keys().len(),
                out@.len() == i,
                forall|j: int|
                    0 <= j < i ==> #[trigger] out@[j]@ == self.keys()[j].0 + seq![' '] + self.keys()[j].1,
            decreases self.keys().len() - i,
        {
            let mut key = self.routes[i].method.clone();
            key.append(" ");
            key.append(self.routes[i].pattern.as_str());
            proof {
                reveal_strlit(" ");
                assert(key@ =~= self.keys()[i as int].0 + seq![' '] + self.keys()[i as int].1);
            }
            out.push(key);
            i += 1;
        }
        out
    }

    /// The handler of route `i`.
    pub fn handler(&self, i: usize) -> (r: &H)
        requires
            i < self.handlers().len(),
        ensures
            *r == self.handlers()[i as int],
    {
        &self.routes[i].handler
    }
}

} // verus!
