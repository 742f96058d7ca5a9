//! The route table: (verb, path template) pairs, each with its handler, and
//! the resolution of a request against them.
use vstd::prelude::*;
use crate::handler::{add_handlers, with_reference_routes};
use crate::http::Request;
use crate::strmap::{assoc_all, lemma_assoc_all_unique, lemma_assoc_set_unique, lookup, Pairs};
use crate::text::{chars_eq, chars_of, lemma_split_from_first, lemma_split_from_nonempty, opt_view, push_all, split, split_exec, string_of, views};

verus! {

/// The handlers of the reference route set.
#[derive(Clone, Copy, PartialEq, Eq, Structural, Debug)]
pub enum Handler {
    Root,
    UserAgent,
    Echo,
    File,
    CreateFile,
}

/// Route keys with their handlers, in order of registration.
pub type Routes = Seq<(Seq<char>, Handler)>;

/// The key of a route: the verb, a space, and the path (or path template).
pub open spec fn route_key(verb: Seq<char>, path: Seq<char>) -> Seq<char> {
    verb + seq![' '] + path
}

/// The pieces of a route key between its `/`s; the verb stands in the first.
pub open spec fn segments(key: Seq<char>) -> Seq<Seq<char>> {
    split(key, seq!['/'])
}

/// Is a template segment a parameter (does it start with `:`)?
pub open spec fn is_param(seg: Seq<char>) -> bool {
    seg.len() > 0 && seg[0] == ':'
}

/// Do template segments `t` match concrete segments `c`: as many, and each
/// either a parameter or equal?
pub open spec fn segments_match(t: Seq<Seq<char>>, c: Seq<Seq<char>>) -> bool {
    t.len() == c.len() && forall|i: int| 0 <= i < t.len() ==> is_param(#[trigger] t[i]) || t[i] == c[i]
}

/// The parameters of `t` bound to the segments of `c` at their places, in order.
pub open spec fn bindings(t: Seq<Seq<char>>, c: Seq<Seq<char>>) -> Pairs
    decreases t.len(),
{
    if t.len() == 0 || c.len() == 0 {
        Seq::empty()
    } else {
        let prev = bindings(t.drop_last(), c.drop_last());
        if is_param(t.last()) {
            prev.push((t.last(), c.last()))
        } else {
            prev
        }
    }
}

/// Does the route key `key` match the request route `route`?
pub open spec fn route_matches(key: Seq<char>, route: Seq<char>) -> bool {
    segments_match(segments(key), segments(route))
}

/// The first route at or after `i` that matches `route`, or -1.
pub open spec fn first_match_from(routes: Routes, route: Seq<char>, i: int) -> int
    decreases routes.len() - i,
{
    if i < 0 || i >= routes.len() {
        -1
    } else if route_matches(routes[i].0, route) {
        i
    } else {
        first_match_from(routes, route, i + 1)
    }
}

/// The first route that matches `route`, or -1.
pub open spec fn first_match(routes: Routes, route: Seq<char>) -> int {
    first_match_from(routes, route, 0)
}

/// Does some route have the key `k`?
pub open spec fn has_route(s: Routes, k: Seq<char>) -> bool {
    exists|i: int| 0 <= i < s.len() && (#[trigger] s[i]).0 == k
}

/// `s` with `k` routed to `h`: in place if `k` is registered, else at the end.
pub open spec fn route_set(s: Routes, k: Seq<char>, h: Handler) -> Routes {
    if has_route(s, k) {
        s.update(choose|i: int| 0 <= i < s.len() && (#[trigger] s[i]).0 == k, (k, h))
    } else {
        s.push((k, h))
    }
}

/// No route key occurs twice.
pub open spec fn route_keys_unique(s: Routes) -> bool {
    forall|i: int, j: int|
        0 <= i < s.len() && 0 <= j < s.len() && (#[trigger] s[i]).0 == (#[trigger] s[j]).0 ==> i
            == j
}

/// Are the parameter names of the template segments `t` distinct?
pub open spec fn params_distinct(t: Seq<Seq<char>>) -> bool {
    forall|p: int, q: int|
        0 <= p < t.len() && 0 <= q < t.len() && is_param(#[trigger] t[p]) && #[trigger] t[q] == t[p]
            ==> p == q
}

/// Each parameter of `t` is bound, among the bindings of `t` against `c`, to
/// the segment of `c` at its place.
proof fn lemma_bindings_lookup(t: Seq<Seq<char>>, c: Seq<Seq<char>>)
    requires
        t.len() == c.len(),
        params_distinct(t),
    ensures
        forall|p: int|
            0 <= p < t.len() && is_param(#[trigger] t[p]) ==> lookup(
                assoc_all(Seq::empty(), bindings(t, c)),
                t[p],
            ) == Some(c[p]),
    decreases t.len(),
{
    if t.len() > 0 {
        let t2 = t.drop_last();
        let c2 = c.drop_last();
        assert(params_distinct(t2)) by {
            assert forall|p: int, q: int|
                0 <= p < t2.len() && 0 <= q < t2.len() && is_param(#[trigger] t2[p]) && #[trigger] t2[q]
                    == t2[p] implies p == q by {
                assert(t[p] == t2[p] && t[q] == t2[q]);
            }
        }
        lemma_bindings_lookup(t2, c2);
        let prev = bindings(t2, c2);
        let e: Pairs = Seq::empty();
        lemma_assoc_all_unique(e, prev);
        if is_param(t.last()) {
            let x = (t.last(), c.last());
            assert(prev.push(x).drop_last() =~= prev);
            lemma_assoc_set_unique(assoc_all(e, prev), x.0, x.1);
            assert forall|p: int| 0 <= p < t.len() && is_param(#[trigger] t[p]) implies lookup(
                assoc_all(e, bindings(t, c)),
                t[p],
            ) == Some(c[p]) by {
                if p < t.len() - 1 {
                    assert(t[p] == t2[p]);
                    assert(c[p] == c2[p]);
                    assert(t[p] != t.last());
                }
            }
        } else {
            assert forall|p: int| 0 <= p < t.len() && is_param(#[trigger] t[p]) implies lookup(
                assoc_all(e, bindings(t, c)),
                t[p],
            ) == Some(c[p]) by {
                assert(p < t.len() - 1);
                assert(t[p] == t2[p]);
                assert(c[p] == c2[p]);
            }
        }
    }
}

/// Resolution picks the first matching route and binds its parameters: where
/// route `i` is the first whose template matches the request route (as many
/// segments, equal literal segments) and its parameter names are distinct,
/// route `i` is chosen, and each parameter is bound to the concrete segment at
/// its place.
pub proof fn lemma_resolution_binds_parameters(routes: Routes, route: Seq<char>, i: int)
    requires
        0 <= i < routes.len(),
        route_matches(routes[i].0, route),
        forall|j: int| 0 <= j < i ==> !route_matches(#[trigger] routes[j].0, route),
        params_distinct(segments(routes[i].0)),
    ensures
        first_match(routes, route) == i,
        forall|p: int|
            0 <= p < segments(routes[i].0).len() && is_param(#[trigger] segments(routes[i].0)[p])
                ==> lookup(
                assoc_all(Seq::empty(), bindings(segments(routes[i].0), segments(route))),
                segments(routes[i].0)[p],
            ) == Some(segments(route)[p]),
{
    lemma_first_match_skips(routes, route, 0, i);
    lemma_bindings_lookup(segments(routes[i].0), segments(route));
}

/// Routes before `i` that do not match are passed over.
proof fn lemma_first_match_skips(routes: Routes, route: Seq<char>, k: int, i: int)
    requires
        0 <= k <= i < routes.len(),
        route_matches(routes[i].0, route),
        forall|j: int| 0 <= j < i ==> !route_matches(#[trigger] routes[j].0, route),
    ensures
        first_match_from(routes, route, k) == i,
    decreases i - k,
{
    if k < i {
        lemma_first_match_skips(routes, route, k + 1, i);
    }
}

/// A request route that no registered template matches resolves to no route:
/// for each route, either the numbers of segments differ, or a literal segment
/// differs (the first segment holds the verb, so a verb mismatch is one).
pub proof fn lemma_mismatch_not_found(routes: Routes, route: Seq<char>)
    requires
        forall|j: int|
            0 <= j < routes.len() ==> segments(#[trigger] routes[j].0).len() != segments(route).len()
                || exists|p: int|
                0 <= p < segments(routes[j].0).len() && !is_param(#[trigger] segments(routes[j].0)[p])
                    && segments(routes[j].0)[p] != segments(route)[p],
    ensures
        first_match(routes, route) == -1,
{
    lemma_none_from(routes, route, 0);
}

proof fn lemma_none_from(routes: Routes, route: Seq<char>, k: int)
    requires
        0 <= k,
        forall|j: int|
            0 <= j < routes.len() ==> segments(#[trigger] routes[j].0).len() != segments(route).len()
                || exists|p: int|
                0 <= p < segments(routes[j].0).len() && !is_param(#[trigger] segments(routes[j].0)[p])
                    && segments(routes[j].0)[p] != segments(route)[p],
    ensures
        first_match_from(routes, route, k) == -1,
    decreases routes.len() - k,
{
    if k < routes.len() {
        assert(!route_matches(routes[k].0, route));
        lemma_none_from(routes, route, k + 1);
    }
}

/// Does no route key start with `:`? Then the first segment of each, which
/// holds the verb, is a literal.
pub open spec fn verbs_literal(s: Routes) -> bool {
    forall|i: int| 0 <= i < s.len() ==> !is_param(#[trigger] s[i].0)
}

/// The first segment of a key that does not start with `:` is no parameter.
proof fn lemma_first_segment_literal(key: Seq<char>)
    requires
        !is_param(key),
    ensures
        segments(key).len() >= 1,
        !is_param(segments(key)[0]),
{
    lemma_split_from_nonempty(Seq::empty(), key, seq!['/']);
    lemma_split_from_first(Seq::empty(), key, seq!['/']);
    assert(Seq::<char>::empty() + key =~= key);
}

/// A verb mismatch is rejected like any literal mismatch: where every route
/// either has another number of segments than the request route, or another
/// first segment (the one that holds the verb), no route matches.
pub proof fn lemma_verb_mismatch_not_found(routes: Routes, route: Seq<char>)
    requires
        verbs_literal(routes),
        forall|j: int|
            0 <= j < routes.len() ==> segments(#[trigger] routes[j].0).len() != segments(route).len()
                || segments(routes[j].0)[0] != segments(route)[0],
    ensures
        first_match(routes, route) == -1,
{
    assert forall|j: int|
        0 <= j < routes.len() implies segments(#[trigger] routes[j].0).len() != segments(route).len()
            || exists|p: int|
            0 <= p < segments(routes[j].0).len() && !is_param(#[trigger] segments(routes[j].0)[p])
                && segments(routes[j].0)[p] != segments(route)[p] by {
        assert(!is_param(routes[j].0));
        lemma_first_segment_literal(routes[j].0);
        if segments(routes[j].0).len() == segments(route).len() {
            assert(!is_param(segments(routes[j].0)[0]));
        }
    }
    lemma_mismatch_not_found(routes, route);
}

/// The route table.
pub struct Router {
    root_dir: Option<String>,
    routes: Vec<(String, Handler)>,
}

/// What a router holds, as values.
pub struct RouterView {
    pub root_dir: Option<Seq<char>>,
    pub routes: Routes,
}

impl View for Router {
    type V = RouterView;

    closed spec fn view(&self) -> RouterView {
        RouterView {
            root_dir: opt_view(self.root_dir),
            routes: self.routes@.map_values(|e: (String, Handler)| (e.0@, e.1)),
        }
    }
}

/// A copy of an optional string.
fn clone_opt(o: &Option<String>) -> (r: Option<String>)
    ensures
        r == *o,
{
    match o {
        Some(s) => Some(s.clone()),
        None => None,
    }
}

/// The segments of a route key.
fn segments_exec(key: &String) -> (r: Vec<Vec<char>>)
    ensures
        views(r@) == segments(key@),
{
    let cs = chars_of(key.as_str());
    let slash = vec!['/'];
    assert(slash@ =~= seq!['/']);
    split_exec(&cs, &slash)
}

/// Whether template segments match concrete ones.
fn segments_match_exec(t: &Vec<Vec<char>>, c: &Vec<Vec<char>>) -> (r: bool)
    ensures
        r == segments_match(views(t@), views(c@)),
{
    if t.len() != c.len() {
        return false;
    }
    let mut i: usize = 0;
    while i < t.len()
        invariant
            i <= t.len() == c.len(),
            forall|j: int| 0 <= j < i ==> is_param(#[trigger] views(t@)[j]) || views(t@)[j] == views(c@)[j],
        decreases t.len() - i,
    {
        let param = t[i].len() > 0 && t[i][0] == ':';
        if !param && !chars_eq(&t[i], &c[i]) {
            assert(!(is_param(views(t@)[i as int]) || views(t@)[i as int] == views(c@)[i as int]));
            return false;
        }
        i = i + 1;
    }
    true
}

/// A router with the given directory and the reference routes.
pub fn new_router(root_dir: Option<String>) -> (r: Router)
    ensures
        r.wf(),
        r@.root_dir == opt_view(root_dir),
        r@.routes == with_reference_routes(Seq::empty()),
{
    let mut http_router = Router { root_dir, routes: Vec::new() };
    assert(http_router@.routes =~= Seq::<(Seq<char>, Handler)>::empty());
    add_handlers(&mut http_router);
    http_router
}

impl Router {
    /// Its route keys are unique, and none starts with `:`.
    pub open spec fn wf(&self) -> bool {
        route_keys_unique(self@.routes) && verbs_literal(self@.routes)
    }

    /// The directory that file routes use.
    pub fn root_dir(&self) -> (r: &Option<String>)
        ensures
            self@.root_dir == opt_view(*r),
    {
        &self.root_dir
    }

    /// Resolves the request against the routes in order of registration: the
    /// first route whose template matches the request's route (as many
    /// `/`-separated segments, and each literal segment equal) is chosen, and
    /// its parameters are bound in the request's path variables. The request
    /// also gets the router's directory. `None` where no route matches.
    pub fn resolve_route(&self, request: &mut Request) -> (r: Option<Handler>)
        requires
            old(request).wf(),
        ensures
            final(request).wf(),
            final(request).verb == old(request).verb,
            final(request).path == old(request).path,
            final(request).headers == old(request).headers,
            final(request).body == old(request).body,
            opt_view(final(request).root_dir) == self@.root_dir,
            ({
                let route = route_key(old(request).verb@, old(request).path@);
                let i = first_match(self@.routes, route);
                &&& r is None <==> i == -1
                &&& r is None ==> final(request).path_vars == old(request).path_vars
                &&& r matches Some(h) ==> 0 <= i < self@.routes.len() && h == self@.routes[i].1
                    && final(request).path_vars@ == assoc_all(
                    old(request).path_vars@,
                    bindings(segments(self@.routes[i].0), segments(route)),
                )
            }),
    {
        let route = request.route();
        let ghost rk = route_key(old(request).verb@, old(request).path@);
        assert(route@ =~= rk);
        let req_segs = segments_exec(&route);
        let mut i: usize = 0;
        while i < self.routes.len()
            invariant
                i <= self.routes.len(),
                *request == *old(request),
                request.wf(),
                route@ == rk,
                rk == route_key(old(request).verb@, old(request).path@),
                views(req_segs@) == segments(rk),
                first_match(self@.routes, rk) == first_match_from(self@.routes, rk, i as int),
            decreases self.routes.len() - i,
        {
            let key_segs = segments_exec(&self.routes[i].0);
            assert(self@.routes[i as int].0 == self.routes@[i as int].0@);
            if segments_match_exec(&key_segs, &req_segs) {
                let ghost t = views(key_segs@);
                let ghost c = views(req_segs@);
                let n = key_segs.len();
                let mut p: usize = 0;
                assert(t.take(0) =~= Seq::<Seq<char>>::empty());
                while p < n
                    invariant
                        p <= n == key_segs.len() == req_segs.len(),
                        t == views(key_segs@),
                        c == views(req_segs@),
                        request.wf(),
                        request.verb == old(request).verb,
                        request.path == old(request).path,
                        request.headers == old(request).headers,
                        request.body == old(request).body,
                        request.path_vars@ == assoc_all(
                            old(request).path_vars@,
                            bindings(t.take(p as int), c.take(p as int)),
                        ),
                    decreases n - p,
                {
                    let ghost prev = bindings(t.take(p as int), c.take(p as int));
                    assert(t.take(p + 1).drop_last() =~= t.take(p as int));
                    assert(c.take(p + 1).drop_last() =~= c.take(p as int));
                    assert(t.take(p + 1).last() == t[p as int]);
                    assert(c.take(p + 1).last() == c[p as int]);
                    if key_segs[p].len() > 0 && key_segs[p][0] == ':' {
                        let name = string_of(&key_segs[p]);
                        let value = string_of(&req_segs[p]);
                        let ghost x = (name@, value@);
                        assert(prev.push(x).drop_last() =~= prev);
                        request.path_vars.insert(name, value);
                    }
                    p = p + 1;
                }
                assert(t.take(n as int) =~= t);
                assert(c.take(n as int) =~= c);
                request.add_root_dir(clone_opt(&self.root_dir));
                return Some(self.routes[i].1);
            }
            i = i + 1;
        }
        request.add_root_dir(clone_opt(&self.root_dir));
        None
    }

    /// Registers `handler` for `verb` and `path`; a second registration of the
    /// same pair replaces the handler in place.
    pub fn add_route(&mut self, verb: &str, path: &str, handler: Handler)
        requires
            old(self).wf(),
            !is_param(verb@),
        ensures
            final(self).wf(),
            final(self)@ == (RouterView {
                routes: route_set(old(self)@.routes, route_key(verb@, path@), handler),
                ..old(self)@
            }),
    {
        let mut k = chars_of(verb);
        k.push(' ');
        let p = chars_of(path);
        push_all(&mut k, &p);
        assert(k@ =~= route_key(verb@, path@));
        assert(!is_param(k@)) by {
            if verb@.len() == 0 {
                assert(k@[0] == ' ');
            } else {
                assert(k@[0] == verb@[0]);
            }
        }
        let key = string_of(&k);
        let ghost kv = (key@, handler);
        let mut i: usize = 0;
        while i < self.routes.len()
            invariant
                i <= self.routes.len(),
                self@ == old(self)@,
                self.wf(),
                kv == (key@, handler),
                key@ == route_key(verb@, path@),
                forall|j: int| 0 <= j < i ==> (#[trigger] self@.routes[j]).0 != key@,
            decreases self.routes.len() - i,
        {
            if self.routes[i].0 == key {
                assert(self@.routes[i as int].0 == key@);
                let ghost c = choose|j: int| 0 <= j < self@.routes.len() && (#[trigger] self@.routes[j]).0 == key@;
                assert(c == i);
                let ghost before = self.routes@;
                assert(self@.routes == before.map_values(|e: (String, Handler)| (e.0@, e.1)));
                self.routes.set(i, (key, handler));
                assert(self@.routes =~= old(self)@.routes.update(i as int, kv)) by {
                    assert forall|j: int| 0 <= j < self@.routes.len() implies self@.routes[j]
                        == old(self)@.routes.update(i as int, kv)[j] by {
                        if j != i {
                            assert(self.routes@[j] == before[j]);
                            assert(self@.routes[j] == old(self)@.routes[j]);
                        }
                    }
                }
                assert forall|a: int, b: int|
                    0 <= a < self@.routes.len() && 0 <= b < self@.routes.len()
                        && (#[trigger] self@.routes[a]).0 == (#[trigger] self@.routes[b]).0 implies a == b by {
                    assert(old(self)@.routes[a].0 == self@.routes[a].0);
                    assert(old(self)@.routes[b].0 == self@.routes[b].0);
                }
                return;
            }
            assert(self@.routes[i as int].0 != key@);
            i = i + 1;
        }
        self.routes.push((key, handler));
        assert(self@.routes =~= old(self)@.routes.push(kv));
        assert(!has_route(old(self)@.routes, key@));
    }
}

} // verus!
