//! The routing table: an ordered list of routes, an exact-match accelerator
//! keyed by `(path, method)`, and an id index, both rebuilt on every
//! mutation so they are never stale.

use vstd::prelude::*;

use crate::matching::{anchored_regex_match, regex_accepts, regex_matches};
use crate::route::{Route, RouteView};
use crate::upstream::{
    opt_upstream_view, spec_strategy_next, spec_strategy_set_enabled, strategy_upstreams,
    upstream_eq, AddressView, Upstream, UpstreamAddress, UpstreamView,
};

verus! {

/// The errors the routing table reports: a duplicate id on add, a missing id
/// on remove, and a stored pattern the regex engine rejects.
#[derive(Clone, Copy, Debug, PartialEq, Eq, Structural)]
pub enum CoreError {
    RouteAlreadyExists,
    RouteNotExists,
    CannotCreateRegexp,
}

/// The routing table.
#[derive(Debug)]
pub struct Context {
    routes: Vec<Route>,
    routing_table: Vec<((String, String), usize)>,  // (path, method) => route position
    route_index: Vec<(String, usize)>,  // route id => route position
}

/// The mathematical form of the routing table.
pub struct ContextView {
    pub routes: Seq<RouteView>,
    pub table: Seq<((Seq<char>, Seq<char>), int)>,
    pub index: Seq<(Seq<char>, int)>,
}

impl View for Context {
    type V = ContextView;

    closed spec fn view(&self) -> ContextView {
        ContextView {
            routes: self.routes@.map_values(|r: Route| r@),
            table: self.routing_table@.map_values(
                |e: ((String, String), usize)| ((e.0.0@, e.0.1@), e.1 as int),
            ),
            index: self.route_index@.map_values(|e: (String, usize)| (e.0@, e.1 as int)),
        }
    }
}

/// The accelerator entries one path of route `i` contributes: one entry per
/// method, in method order.
pub open spec fn pairs_of(p: Seq<char>, methods: Seq<Seq<char>>, i: int) -> Seq<
    ((Seq<char>, Seq<char>), int),
>
    decreases methods.len(),
{
    if methods.len() == 0 {
        Seq::empty()
    } else {
        pairs_of(p, methods.drop_last(), i).push(((p, methods.last()), i))
    }
}

/// The accelerator entries route `i` contributes: its paths in order, each
/// crossed with every method.
pub open spec fn entries_of(paths: Seq<Seq<char>>, methods: Seq<Seq<char>>, i: int) -> Seq<
    ((Seq<char>, Seq<char>), int),
>
    decreases paths.len(),
{
    if paths.len() == 0 {
        Seq::empty()
    } else {
        entries_of(paths.drop_last(), methods, i) + pairs_of(paths.last(), methods, i)
    }
}

/// The accelerator entries of the first `n` routes, in route order.
pub open spec fn spec_table_upto(routes: Seq<RouteView>, n: int) -> Seq<
    ((Seq<char>, Seq<char>), int),
>
    decreases n,
{
    if n <= 0 {
        Seq::empty()
    } else {
        spec_table_upto(routes, n - 1) + entries_of(routes[n - 1].paths, routes[n - 1].methods, n - 1)
    }
}

/// The exact-match accelerator a route list determines.
pub open spec fn spec_table(routes: Seq<RouteView>) -> Seq<((Seq<char>, Seq<char>), int)> {
    spec_table_upto(routes, routes.len() as int)
}

/// The id index a route list determines: each route's id beside its position.
pub open spec fn spec_index(routes: Seq<RouteView>) -> Seq<(Seq<char>, int)> {
    Seq::new(routes.len(), |i: int| (routes[i].id, i))
}

/// No two routes share an id.
pub open spec fn unique_ids(routes: Seq<RouteView>) -> bool {
    forall|i: int, j: int| 0 <= i < j < routes.len() ==> routes[i].id != routes[j].id
}

/// The position of the first route with the given id.
pub open spec fn find_id(routes: Seq<RouteView>, id: Seq<char>) -> Option<int>
    decreases routes.len(),
{
    if routes.len() == 0 {
        None
    } else if routes[0].id == id {
        Some(0)
    } else {
        match find_id(routes.drop_first(), id) {
            Some(i) => Some(i + 1),
            None => None,
        }
    }
}

/// Whether some route carries the given id.
pub open spec fn contains_id(routes: Seq<RouteView>, id: Seq<char>) -> bool {
    find_id(routes, id) is Some
}

/// What an exact lookup in the accelerator returns: the entry written last
/// wins, as a map insert overwrites an earlier one.
pub open spec fn table_lookup(
    table: Seq<((Seq<char>, Seq<char>), int)>,
    p: Seq<char>,
    m: Seq<char>,
) -> Option<int>
    decreases table.len(),
{
    if table.len() == 0 {
        None
    } else if table.last().0 == (p, m) {
        Some(table.last().1)
    } else {
        table_lookup(table.drop_last(), p, m)
    }
}

/// What the regex fallback returns: scanning the accelerator in order, the
/// first entry whose anchored path and method patterns both match wins; a
/// pattern the regex engine rejects is a fatal error for the whole lookup.
pub open spec fn spec_regex_fallback(
    table: Seq<((Seq<char>, Seq<char>), int)>,
    p: Seq<char>,
    m: Seq<char>,
) -> Result<Option<int>, CoreError>
    decreases table.len(),
{
    if table.len() == 0 {
        Ok(None)
    } else if !regex_accepts(table.first().0.0) || !regex_accepts(table.first().0.1) {
        Err(CoreError::CannotCreateRegexp)
    } else if regex_matches(table.first().0.0, p) && regex_matches(table.first().0.1, m) {
        Ok(Some(table.first().1))
    } else {
        spec_regex_fallback(table.drop_first(), p, m)
    }
}

/// Which route position a lookup resolves to: the exact match when there is
/// one, else the regex fallback.
pub open spec fn spec_find_route_index(c: ContextView, p: Seq<char>, m: Seq<char>) -> Result<
    Option<int>,
    CoreError,
> {
    match table_lookup(c.table, p, m) {
        Some(i) => Ok(Some(i)),
        None => spec_regex_fallback(c.table, p, m),
    }
}

/// What one lookup does to the whole table: the table afterwards, and the
/// upstream it returns. The selected route's strategy takes one step; a
/// position beyond the route list resolves to nothing.
pub open spec fn spec_lookup(c: ContextView, p: Seq<char>, m: Seq<char>) -> Result<
    (ContextView, Option<UpstreamView>),
    CoreError,
> {
    match spec_find_route_index(c, p, m) {
        Err(e) => Err(e),
        Ok(None) => Ok((c, None)),
        Ok(Some(i)) => {
            if 0 <= i < c.routes.len() {
                let stepped = spec_strategy_next(c.routes[i].strategy);
                let routes2 = c.routes.update(
                    i,
                    RouteView { strategy: stepped.0, ..c.routes[i] },
                );
                Ok((ContextView { routes: routes2, ..c }, stepped.1))
            } else {
                Ok((c, None))
            }
        },
    }
}

/// Every route's strategy after enabling or disabling one address everywhere.
pub open spec fn spec_set_all(routes: Seq<RouteView>, addr: AddressView, on: bool) -> Seq<
    RouteView,
> {
    routes.map_values(
        |r: RouteView| RouteView { strategy: spec_strategy_set_enabled(r.strategy, addr, on), ..r },
    )
}

/// Every upstream of the first `n` routes, in route order, duplicates kept.
pub open spec fn concat_upstreams_upto(routes: Seq<RouteView>, n: int) -> Seq<UpstreamView>
    decreases n,
{
    if n <= 0 {
        Seq::empty()
    } else {
        concat_upstreams_upto(routes, n - 1) + strategy_upstreams(routes[n - 1].strategy)
    }
}

/// Every upstream across all routes, in route order, duplicates kept.
pub open spec fn all_upstreams(routes: Seq<RouteView>) -> Seq<UpstreamView> {
    concat_upstreams_upto(routes, routes.len() as int)
}

/// The sequence with later duplicates dropped: each value keeps its first
/// position.
pub open spec fn dedup(s: Seq<UpstreamView>) -> Seq<UpstreamView>
    decreases s.len(),
{
    if s.len() == 0 {
        Seq::empty()
    } else {
        let d = dedup(s.drop_last());
        if d.contains(s.last()) {
            d
        } else {
            d.push(s.last())
        }
    }
}

impl Context {
    /// The indexes mirror the route list exactly, and ids are unique.
    pub open spec fn wf(&self) -> bool {
        &&& self@.table == spec_table(self@.routes)
        &&& self@.index == spec_index(self@.routes)
        &&& unique_ids(self@.routes)
    }

    /// A table with no routes.
    pub fn build_empty() -> (r: Self)
        ensures
            r.wf(),
            r@.routes.len() == 0,
            r@.table.len() == 0,
            r@.index.len() == 0,
    {
        let r = Context { routes: Vec::new(), routing_table: Vec::new(), route_index: Vec::new() };
        proof {
            assert(r@.table =~= spec_table(r@.routes));
            assert(r@.index =~= spec_index(r@.routes));
        }
        r
    }

    /// The position of the route with the given id, through the id index.
    fn position_of_id(&self, route_id: &str) -> (r: Option<usize>)
        requires
            self.wf(),
        ensures
            r matches Some(i) ==> find_id(self@.routes, route_id@) == Some(i as int),
            r is None ==> find_id(self@.routes, route_id@) is None,
    {
        proof {
            lemma_find_id_props(self@.routes, route_id@);
            assert(self@.index.len() == self.route_index@.len());
            assert(self@.index.len() == spec_index(self@.routes).len());
        }
        let wanted = route_id.to_owned();
        let mut k: usize = 0;
        while k < self.route_index.len()
            invariant
                self.wf(),
                wanted@ == route_id@,
                k <= self.route_index.len(),
                self.route_index@.len() == self@.routes.len(),
                forall|j: int| 0 <= j < k ==> self@.routes[j].id != route_id@,
            decreases self.route_index.len() - k,
        {
            if String::eq(&self.route_index[k].0, &wanted) {
                proof {
                    assert(self@.index[k as int] == (self@.routes[k as int].id, k as int));
                    assert(self@.routes[k as int].id == route_id@);
                    lemma_find_id_props(self@.routes, route_id@);
                }
                return Some(self.route_index[k].1);
            }
            proof {
                assert(self@.index[k as int] == (self@.routes[k as int].id, k as int));
            }
            k = k + 1;
        }
        proof {
            lemma_find_id_props(self@.routes, route_id@);
        }
        None
    }

    /// Clears and rebuilds the exact-match accelerator from the route list.
    fn rebuild_routing_table(&mut self)
        ensures
            final(self)@.routes == old(self)@.routes,
            final(self)@.index == old(self)@.index,
            final(self)@.table == spec_table(final(self)@.routes),
    {
        let ghost routes = self@.routes;
        self.routing_table.clear();
        proof {
            assert(self@.table =~= spec_table_upto(routes, 0));
        }
        let mut i: usize = 0;
        while i < self.routes.len()
            invariant
                i <= self.routes.len(),
                self.routes@ == old(self).routes@,
                self.route_index@ == old(self).route_index@,
                routes == self@.routes,
                self@.table == spec_table_upto(routes, i as int),
            decreases self.routes.len() - i,
        {
            let ghost paths = routes[i as int].paths;
            let ghost methods = routes[i as int].methods;
            let mut pi: usize = 0;
            while pi < self.routes[i].paths.len()
                invariant
                    i < self.routes.len(),
                    (pi as int) <= paths.len(),
                    self.routes@ == old(self).routes@,
                    self.route_index@ == old(self).route_index@,
                    routes == self@.routes,
                    paths == routes[i as int].paths,
                    methods == routes[i as int].methods,
                    self@.table == spec_table_upto(routes, i as int) + entries_of(
                        paths.take(pi as int),
                        methods,
                        i as int,
                    ),
                decreases paths.len() - pi,
            {
                let mut mi: usize = 0;
                while mi < self.routes[i].methods.len()
                    invariant
                        i < self.routes.len(),
                        (pi as int) < paths.len(),
                        (mi as int) <= methods.len(),
                        self.routes@ == old(self).routes@,
                        self.route_index@ == old(self).route_index@,
                        routes == self@.routes,
                        paths == routes[i as int].paths,
                        methods == routes[i as int].methods,
                        self@.table == spec_table_upto(routes, i as int) + entries_of(
                            paths.take(pi as int),
                            methods,
                            i as int,
                        ) + pairs_of(paths[pi as int], methods.take(mi as int), i as int),
                    decreases methods.len() - mi,
                {
                    let path = self.routes[i].paths[pi].clone();
                    let method = self.routes[i].methods[mi].clone();
                    let ghost pv = path@;
                    let ghost mv = method@;
                    let ghost t0 = self@.table;
                    self.routing_table.push(((path, method), i));
                    proof {
                        assert(pv == paths[pi as int]);
                        assert(mv == methods[mi as int]);
                        assert(self@.table =~= t0.push(((pv, mv), i as int)));
                        assert(methods.take(mi as int + 1).drop_last() =~= methods.take(mi as int));
                        assert(pairs_of(paths[pi as int], methods.take(mi as int + 1), i as int)
                            == pairs_of(paths[pi as int], methods.take(mi as int), i as int).push(
                            ((paths[pi as int], methods[mi as int]), i as int),
                        ));
                        assert(self@.table =~= spec_table_upto(routes, i as int) + entries_of(
                            paths.take(pi as int),
                            methods,
                            i as int,
                        ) + pairs_of(paths[pi as int], methods.take(mi as int + 1), i as int));
                    }
                    mi = mi + 1;
                }
                proof {
                    assert(methods.take(methods.len() as int) =~= methods);
                    assert(paths.take(pi as int + 1).drop_last() =~= paths.take(pi as int));
                    assert(paths.take(pi as int + 1).last() == paths[pi as int]);
                    assert(entries_of(paths.take(pi as int + 1), methods, i as int) == entries_of(
                        paths.take(pi as int),
                        methods,
                        i as int,
                    ) + pairs_of(paths[pi as int], methods, i as int));
                    assert(self@.table =~= spec_table_upto(routes, i as int) + entries_of(
                        paths.take(pi as int + 1),
                        methods,
                        i as int,
                    ));
                }
                pi = pi + 1;
            }
            proof {
                assert(paths.take(paths.len() as int) =~= paths);
                assert(self@.table =~= spec_table_upto(routes, i as int + 1));
            }
            i = i + 1;
        }
    }

    /// Clears and rebuilds the id index from the route list.
    fn rebuild_route_index(&mut self)
        ensures
            final(self)@.routes == old(self)@.routes,
            final(self)@.table == old(self)@.table,
            final(self)@.index == spec_index(final(self)@.routes),
    {
        let ghost routes = self@.routes;
        self.route_index.clear();
        let mut i: usize = 0;
        while i < self.routes.len()
            invariant
                i <= self.routes.len(),
                self.routes@ == old(self).routes@,
                self.routing_table@ == old(self).routing_table@,
                routes == self@.routes,
                self@.index =~= spec_index(routes).take(i as int),
            decreases self.routes.len() - i,
        {
            let id = self.routes[i].id.clone();
            let ghost idv = id@;
            let ghost x0 = self@.index;
            self.route_index.push((id, i));
            proof {
                assert(idv == routes[i as int].id);
                assert(self@.index =~= x0.push((idv, i as int)));
                assert(self@.index =~= spec_index(routes).take(i as int + 1));
            }
            i = i + 1;
        }
        proof {
            assert(spec_index(routes).take(routes.len() as int) =~= spec_index(routes));
        }
    }

    /// Adds the route. Fails, changing nothing, when a route with the same
    /// id is already present; otherwise the route is appended and both
    /// indexes are rebuilt.
    pub fn add_route(&mut self, route: Route) -> (r: Result<(), CoreError>)
        requires
            old(self).wf(),
        ensures
            final(self).wf(),
            contains_id(old(self)@.routes, route@.id) ==> r == Err::<(), CoreError>(
                CoreError::RouteAlreadyExists,
            ) && final(self)@ == old(self)@,
            !contains_id(old(self)@.routes, route@.id) ==> r == Ok::<(), CoreError>(())
                && final(self)@.routes == old(self)@.routes.push(route@),
    {
        let present = self.position_of_id(route.id.as_str());
        match present {
            Some(_) => Err(CoreError::RouteAlreadyExists),
            None => {
                proof {
                    lemma_find_id_props(self@.routes, route@.id);
                }
                let ghost oldroutes = self@.routes;
                self.routes.push(route);
                proof {
                    assert(self@.routes =~= oldroutes.push(route@));
                    assert(unique_ids(self@.routes)) by {
                        assert(forall|j: int|
                            0 <= j < oldroutes.len() ==> oldroutes[j].id != route@.id);
                        assert(forall|i: int, j: int|
                            0 <= i < j < self@.routes.len() ==> self@.routes[i].id
                                != self@.routes[j].id);
                    }
                }
                self.rebuild_routing_table();
                self.rebuild_route_index();
                Ok(())
            },
        }
    }

    /// Removes and returns the route with the given id. Fails, changing
    /// nothing, when no route carries the id; otherwise the route leaves the
    /// list and both indexes are rebuilt.
    pub fn remove_route(&mut self, route_id: &str) -> (r: Result<Route, CoreError>)
        requires
            old(self).wf(),
        ensures
            final(self).wf(),
            find_id(old(self)@.routes, route_id@) is None ==> (r matches Err(e) && e
                == CoreError::RouteNotExists && final(self)@ == old(self)@),
            find_id(old(self)@.routes, route_id@) matches Some(i) ==> (r matches Ok(removed)
                && removed@ == old(self)@.routes[i] && final(self)@.routes == old(
                self,
            )@.routes.remove(i)),
    {
        let found = self.position_of_id(route_id);
        match found {
            None => Err(CoreError::RouteNotExists),
            Some(i) => {
                proof {
                    lemma_find_id_props(self@.routes, route_id@);
                }
                let ghost oldroutes = self@.routes;
                let removed = self.routes.remove(i);
                proof {
                    assert(self@.routes =~= oldroutes.remove(i as int));
                    assert(unique_ids(self@.routes)) by {
                        assert(forall|a: int, b: int|
                            0 <= a < b < self@.routes.len() ==> self@.routes[a].id
                                != self@.routes[b].id) by {
                            assert(forall|a: int|
                                0 <= a < self@.routes.len() ==> self@.routes[a] == (if a
                                    < i as int {
                                    oldroutes[a]
                                } else {
                                    oldroutes[a + 1]
                                }));
                        }
                    }
                }
                self.rebuild_routing_table();
                self.rebuild_route_index();
                Ok(removed)
            },
        }
    }
}

impl Context {
    /// Which route position a lookup of `(path, method)` resolves to.
    fn find_route_index(&self, path: &str, method: &str) -> (r: Result<Option<usize>, CoreError>)
        ensures
            match spec_find_route_index(self@, path@, method@) {
                Err(e) => r matches Err(e2) && e2 == e,
                Ok(None) => r matches Ok(o) && o is None,
                Ok(Some(i)) => r matches Ok(o) && (o matches Some(j) && j as int == i),
            },
    {
        let ghost tv = self@.table;
        let p_owned = path.to_owned();
        let m_owned = method.to_owned();
        // Exact match first: the entry written last wins.
        let mut j: usize = self.routing_table.len();
        proof {
            assert(tv.take(j as int) =~= tv);
        }
        while j > 0
            invariant
                j <= self.routing_table.len(),
                tv == self@.table,
                p_owned@ == path@,
                m_owned@ == method@,
                table_lookup(tv, path@, method@) == table_lookup(
                    tv.take(j as int),
                    path@,
                    method@,
                ),
            decreases j,
        {
            let j2 = j - 1;
            proof {
                assert(tv.take(j as int).drop_last() =~= tv.take(j2 as int));
                assert(tv.take(j as int).last() == tv[j2 as int]);
                assert(tv[j2 as int] == ((self.routing_table@[j2 as int].0.0@,
                self.routing_table@[j2 as int].0.1@), self.routing_table@[j2 as int].1 as int));
            }
            if String::eq(&self.routing_table[j2].0.0, &p_owned) && String::eq(
                &self.routing_table[j2].0.1,
                &m_owned,
            ) {
                proof {
                    assert(table_lookup(tv.take(j as int), path@, method@) == Some(
                        tv[j2 as int].1,
                    ));
                }
                return Ok(Some(self.routing_table[j2].1));
            }
            proof {
                assert(tv.take(j as int).last().0 != (path@, method@));
            }
            j = j2;
        }
        proof {
            assert(tv.take(0) =~= Seq::<((Seq<char>, Seq<char>), int)>::empty());
            assert(table_lookup(tv, path@, method@) is None);
        }
        // No exact entry: fall back to anchored regex matching, in table order.
        let mut k: usize = 0;
        proof {
            assert(tv.skip(0) =~= tv);
        }
        while k < self.routing_table.len()
            invariant
                k <= self.routing_table.len(),
                tv == self@.table,
                p_owned@ == path@,
                m_owned@ == method@,
                table_lookup(tv, path@, method@) is None,
                spec_regex_fallback(tv, path@, method@) == spec_regex_fallback(
                    tv.skip(k as int),
                    path@,
                    method@,
                ),
            decreases self.routing_table.len() - k,
        {
            proof {
                assert(tv.skip(k as int).first() == tv[k as int]);
                assert(tv[k as int] == ((self.routing_table@[k as int].0.0@,
                self.routing_table@[k as int].0.1@), self.routing_table@[k as int].1 as int));
                assert(tv.skip(k as int).drop_first() =~= tv.skip(k as int + 1));
            }
            let path_ok = match anchored_regex_match(self.routing_table[k].0.0.as_str(), path) {
                Some(b) => b,
                None => {
                    return Err(CoreError::CannotCreateRegexp);
                },
            };
            let method_ok = match anchored_regex_match(self.routing_table[k].0.1.as_str(), method) {
                Some(b) => b,
                None => {
                    return Err(CoreError::CannotCreateRegexp);
                },
            };
            if path_ok && method_ok {
                return Ok(Some(self.routing_table[k].1));
            }
            k = k + 1;
        }
        proof {
            assert(tv.skip(self.routing_table@.len() as int) =~= Seq::<
                ((Seq<char>, Seq<char>), int),
            >::empty());
        }
        Ok(None)
    }

    /// Resolves a request: the exact `(path, method)` entry when there is
    /// one, else the first regex-matching entry; the selected route's
    /// strategy picks the upstream and takes one step. A stored pattern the
    /// regex engine rejects fails the lookup with `CannotCreateRegexp`.
    pub fn upstream_lookup(&mut self, path: &str, method: &str) -> (r: Result<
        Option<Upstream>,
        CoreError,
    >)
        requires
            old(self).wf(),
        ensures
            final(self).wf(),
            match spec_lookup(old(self)@, path@, method@) {
                Err(e) => r matches Err(e2) && e2 == e && final(self)@ == old(self)@,
                Ok((c2, pick)) => r matches Ok(ro) && final(self)@ == c2 && opt_upstream_view(ro)
                    == pick,
            },
    {
        let found = match self.find_route_index(path, method) {
            Ok(o) => o,
            Err(e) => {
                return Err(e);
            },
        };
        match found {
            None => Ok(None),
            Some(i) => {
                if i < self.routes.len() {
                    let ghost oldroutes = self@.routes;
                    let mut route = self.routes[i].clone();
                    let pick = route.next_available_upstream();
                    self.routes.set(i, route);
                    proof {
                        assert(self@.routes =~= oldroutes.update(
                            i as int,
                            RouteView {
                                strategy: spec_strategy_next(oldroutes[i as int].strategy).0,
                                ..oldroutes[i as int]
                            },
                        ));
                        lemma_table_upto_same(oldroutes, self@.routes, oldroutes.len() as int);
                        assert(spec_index(self@.routes) =~= spec_index(oldroutes));
                    }
                    Ok(pick)
                } else {
                    Ok(None)
                }
            },
        }
    }

    /// Disables the given address in every route, so new requests are not
    /// routed to it.
    pub fn disable_upstream_for_all_routes(&mut self, upstream: &UpstreamAddress) -> (r: Result<
        (),
        CoreError,
    >)
        requires
            old(self).wf(),
        ensures
            final(self).wf(),
            r == Ok::<(), CoreError>(()),
            final(self)@.routes == spec_set_all(old(self)@.routes, upstream@, false),
            final(self)@.table == old(self)@.table,
            final(self)@.index == old(self)@.index,
    {
        self.set_all_routes(upstream, false);
        Ok(())
    }

    /// Enables the given address in every route, so new requests can be
    /// routed to it again.
    pub fn enable_upstream_for_all_routes(&mut self, upstream: &UpstreamAddress) -> (r: Result<
        (),
        CoreError,
    >)
        requires
            old(self).wf(),
        ensures
            final(self).wf(),
            r == Ok::<(), CoreError>(()),
            final(self)@.routes == spec_set_all(old(self)@.routes, upstream@, true),
            final(self)@.table == old(self)@.table,
            final(self)@.index == old(self)@.index,
    {
        self.set_all_routes(upstream, true);
        Ok(())
    }

    /// Flips one address's enablement in every route's strategy.
    fn set_all_routes(&mut self, upstream: &UpstreamAddress, on: bool)
        requires
            old(self).wf(),
        ensures
            final(self).wf(),
            final(self)@.routes == spec_set_all(old(self)@.routes, upstream@, on),
            final(self)@.table == old(self)@.table,
            final(self)@.index == old(self)@.index,
    {
        let ghost oldroutes = self@.routes;
        let mut i: usize = 0;
        while i < self.routes.len()
            invariant
                i <= self.routes.len(),
                self.routes@.len() == oldroutes.len(),
                self.routing_table@ == old(self).routing_table@,
                self.route_index@ == old(self).route_index@,
                old(self).wf(),
                oldroutes == old(self)@.routes,
                forall|j: int|
                    0 <= j < i ==> self@.routes[j] == spec_set_all(oldroutes, upstream@, on)[j],
                forall|j: int| i <= j < self.routes@.len() ==> self@.routes[j] == oldroutes[j],
            decreases self.routes.len() - i,
        {
            let mut route = self.routes[i].clone();
            if on {
                route.enable_upstream(upstream);
            } else {
                route.disable_upstream(upstream);
            }
            proof {
                assert(spec_set_all(oldroutes, upstream@, on)[i as int] == (RouteView {
                    strategy: spec_strategy_set_enabled(
                        oldroutes[i as int].strategy,
                        upstream@,
                        on,
                    ),
                    ..oldroutes[i as int]
                }));
                assert(route@ == spec_set_all(oldroutes, upstream@, on)[i as int]);
            }
            let ghost prev = self@.routes;
            self.routes.set(i, route);
            proof {
                assert(self@.routes =~= prev.update(i as int, route@));
            }
            i = i + 1;
        }
        proof {
            assert(self@.routes =~= spec_set_all(oldroutes, upstream@, on));
            lemma_table_upto_same(oldroutes, self@.routes, oldroutes.len() as int);
            assert(spec_index(self@.routes) =~= spec_index(oldroutes));
        }
    }

    /// The deduplicated set of upstreams across all routes, each value at
    /// its first position in route order.
    pub fn get_all_upstreams(&self) -> (r: Result<Vec<Upstream>, CoreError>)
        ensures
            r matches Ok(v) && v@.map_values(|u: Upstream| u@) == dedup(
                all_upstreams(self@.routes),
            ),
    {
        let ghost routes = self@.routes;
        let mut result: Vec<Upstream> = Vec::new();
        let mut i: usize = 0;
        while i < self.routes.len()
            invariant
                i <= self.routes.len(),
                routes == self@.routes,
                result@.map_values(|u: Upstream| u@) == dedup(
                    concat_upstreams_upto(routes, i as int),
                ),
            decreases self.routes.len() - i,
        {
            let ups = self.routes[i].get_upstreams();
            let ghost uv = strategy_upstreams(routes[i as int].strategy);
            let mut j: usize = 0;
            proof {
                assert(concat_upstreams_upto(routes, i as int) + uv.take(0) =~= concat_upstreams_upto(
                    routes,
                    i as int,
                ));
            }
            while j < ups.len()
                invariant
                    j <= ups.len(),
                    routes == self@.routes,
                    i < self.routes@.len(),
                    uv == strategy_upstreams(routes[i as int].strategy),
                    uv == ups@.map_values(|u: Upstream| u@),
                    result@.map_values(|u: Upstream| u@) == dedup(
                        concat_upstreams_upto(routes, i as int) + uv.take(j as int),
                    ),
                decreases ups.len() - j,
            {
                let ghost before = concat_upstreams_upto(routes, i as int) + uv.take(j as int);
                proof {
                    assert((concat_upstreams_upto(routes, i as int) + uv.take(j as int + 1)).drop_last()
                        =~= before);
                    assert((concat_upstreams_upto(routes, i as int) + uv.take(j as int + 1)).last()
                        == uv[j as int]);
                }
                if !contains_upstream(&result, &ups[j]) {
                    result.push(ups[j].clone());
                    proof {
                        assert(result@.map_values(|u: Upstream| u@) =~= dedup(before).push(
                            uv[j as int],
                        ));
                    }
                }
                proof {
                    assert(result@.map_values(|u: Upstream| u@) == dedup(
                        concat_upstreams_upto(routes, i as int) + uv.take(j as int + 1),
                    ));
                }
                j = j + 1;
            }
            proof {
                assert(uv.take(uv.len() as int) =~= uv);
                assert(concat_upstreams_upto(routes, i as int) + uv =~= concat_upstreams_upto(
                    routes,
                    i as int + 1,
                ));
            }
            i = i + 1;
        }
        Ok(result)
    }

    /// Every route, in order.
    pub fn get_all_routes(&self) -> (r: Result<Vec<Route>, CoreError>)
        ensures
            r matches Ok(v) && v@.map_values(|x: Route| x@) == self@.routes,
    {
        let mut result: Vec<Route> = Vec::new();
        let mut i: usize = 0;
        while i < self.routes.len()
            invariant
                i <= self.routes.len(),
                result@.len() == i,
                forall|j: int| 0 <= j < i ==> result@[j]@ == self@.routes[j],
            decreases self.routes.len() - i,
        {
            result.push(self.routes[i].clone());
            i = i + 1;
        }
        proof {
            assert(result@.map_values(|x: Route| x@) =~= self@.routes);
        }
        Ok(result)
    }

    /// The route with the given id, when one is present.
    pub fn get_route_by_id(&self, route_id: &str) -> (r: Result<Option<&Route>, CoreError>)
        requires
            self.wf(),
        ensures
            match find_id(self@.routes, route_id@) {
                Some(i) => r matches Ok(o) && (o matches Some(rt) && rt@ == self@.routes[i]),
                None => r matches Ok(o) && o is None,
            },
    {
        match self.position_of_id(route_id) {
            Some(i) => {
                proof {
                    lemma_find_id_props(self@.routes, route_id@);
                }
                Ok(Some(&self.routes[i]))
            },
            None => Ok(None),
        }
    }
}

/// The distinct `(path, method)` keys among the accelerator entries, each
/// at its first position.
pub open spec fn distinct_keys(table: Seq<((Seq<char>, Seq<char>), int)>) -> Seq<
    (Seq<char>, Seq<char>),
>
    decreases table.len(),
{
    if table.len() == 0 {
        Seq::empty()
    } else {
        let d = distinct_keys(table.drop_last());
        if d.contains(table.last().0) {
            d
        } else {
            d.push(table.last().0)
        }
    }
}

impl Context {
    /// How many routes the table holds.
    pub fn routes_count(&self) -> (r: usize)
        ensures
            r == self@.routes.len(),
    {
        self.routes.len()
    }

    /// How many entries the id index holds.
    pub fn route_index_count(&self) -> (r: usize)
        ensures
            r == self@.index.len(),
    {
        self.route_index.len()
    }

    /// How many distinct `(path, method)` keys the accelerator covers;
    /// several routes listing the same pair count once.
    pub fn routing_table_count(&self) -> (r: usize)
        ensures
            r == distinct_keys(self@.table).len(),
    {
        let ghost tv = self@.table;
        let mut seen: Vec<(String, String)> = Vec::new();
        let mut i: usize = 0;
        while i < self.routing_table.len()
            invariant
                i <= self.routing_table.len(),
                tv == self@.table,
                seen@.map_values(|k: (String, String)| (k.0@, k.1@)) == distinct_keys(
                    tv.take(i as int),
                ),
            decreases self.routing_table.len() - i,
        {
            proof {
                assert(tv.take(i as int + 1).drop_last() =~= tv.take(i as int));
                assert(tv.take(i as int + 1).last() == tv[i as int]);
                assert(tv[i as int] == ((self.routing_table@[i as int].0.0@,
                self.routing_table@[i as int].0.1@), self.routing_table@[i as int].1 as int));
            }
            let ghost s0 = seen@.map_values(|k: (String, String)| (k.0@, k.1@));
            if !contains_key(&seen, &self.routing_table[i].0) {
                let key = (self.routing_table[i].0.0.clone(), self.routing_table[i].0.1.clone());
                seen.push(key);
                proof {
                    assert(seen@.map_values(|k: (String, String)| (k.0@, k.1@)) =~= s0.push(
                        tv[i as int].0,
                    ));
                }
            }
            i = i + 1;
        }
        proof {
            assert(tv.take(tv.len() as int) =~= tv);
        }
        seen.len()
    }
}

/// Whether a `(path, method)` key already stands in the list.
fn contains_key(v: &Vec<(String, String)>, key: &(String, String)) -> (r: bool)
    ensures
        r == v@.map_values(|k: (String, String)| (k.0@, k.1@)).contains((key.0@, key.1@)),
{
    let ghost views = v@.map_values(|k: (String, String)| (k.0@, k.1@));
    let mut i: usize = 0;
    while i < v.len()
        invariant
            i <= v.len(),
            views == v@.map_values(|k: (String, String)| (k.0@, k.1@)),
            forall|j: int| 0 <= j < i ==> views[j] != (key.0@, key.1@),
        decreases v.len() - i,
    {
        proof {
            assert(views[i as int] == (v@[i as int].0@, v@[i as int].1@));
        }
        if String::eq(&v[i].0, &key.0) && String::eq(&v[i].1, &key.1) {
            proof {
                assert(views[i as int] == (key.0@, key.1@));
            }
            return true;
        }
        i = i + 1;
    }
    proof {
        assert(!views.contains((key.0@, key.1@))) by {
            if views.contains((key.0@, key.1@)) {
                let k = choose|k: int| 0 <= k < views.len() && views[k] == (key.0@, key.1@);
            }
        }
    }
    false
}

/// Whether a value already stands in the list.
fn contains_upstream(v: &Vec<Upstream>, u: &Upstream) -> (r: bool)
    ensures
        r == v@.map_values(|x: Upstream| x@).contains(u@),
{
    let ghost views = v@.map_values(|x: Upstream| x@);
    let mut i: usize = 0;
    while i < v.len()
        invariant
            i <= v.len(),
            views == v@.map_values(|x: Upstream| x@),
            forall|j: int| 0 <= j < i ==> views[j] != u@,
        decreases v.len() - i,
    {
        if upstream_eq(&v[i], u) {
            proof {
                assert(views[i as int] == u@);
            }
            return true;
        }
        i = i + 1;
    }
    proof {
        assert(!views.contains(u@)) by {
            if views.contains(u@) {
                let k = choose|k: int| 0 <= k < views.len() && views[k] == u@;
            }
        }
    }
    false
}

/// The accelerator reads only each route's paths and methods: two route
/// lists that agree on those agree on the accelerator.
proof fn lemma_table_upto_same(r1: Seq<RouteView>, r2: Seq<RouteView>, n: int)
    requires
        forall|i: int| 0 <= i < n ==> r1[i].paths == r2[i].paths && r1[i].methods == r2[i].methods,
    ensures
        spec_table_upto(r1, n) == spec_table_upto(r2, n),
    decreases n,
{
    if n > 0 {
        lemma_table_upto_same(r1, r2, n - 1);
    }
}

/// What `find_id` says of a route list: the position it returns carries the
/// id and is the first to do so; a miss means no route carries the id.
pub proof fn lemma_find_id_props(routes: Seq<RouteView>, id: Seq<char>)
    ensures
        match find_id(routes, id) {
            Some(i) => 0 <= i < routes.len() && routes[i].id == id && (forall|j: int|
                0 <= j < i ==> routes[j].id != id),
            None => forall|j: int| 0 <= j < routes.len() ==> routes[j].id != id,
        },
    decreases routes.len(),
{
    if routes.len() == 0 {
    } else if routes[0].id == id {
    } else {
        lemma_find_id_props(routes.drop_first(), id);
        assert(forall|j: int|
            1 <= j < routes.len() ==> routes[j] == routes.drop_first()[j - 1]);
    }
}


/// The indexes a route list determines, as one predicate over the view:
/// what `Context::wf` says, stated for proofs about views.
pub open spec fn context_view_wf(c: ContextView) -> bool {
    &&& c.table == spec_table(c.routes)
    &&& c.index == spec_index(c.routes)
    &&& unique_ids(c.routes)
}

/// A net-empty table is empty everywhere: with no routes, the exact-match
/// accelerator and the id index are empty too. Every add and remove keeps
/// the indexes derived from the route list, so any sequence of them that
/// ends with no routes ends with this.
pub proof fn lemma_empty_context_all_empty(c: ContextView)
    requires
        context_view_wf(c),
        c.routes.len() == 0,
    ensures
        c.table.len() == 0,
        c.index.len() == 0,
{
}

/// Adding a fresh route and then removing it leaves the table's observable
/// state exactly as it was.
pub proof fn lemma_add_remove_round_trip(c0: ContextView, r: RouteView, c1: ContextView, c2: ContextView)
    requires
        context_view_wf(c0),
        !contains_id(c0.routes, r.id),
        c1.routes == c0.routes.push(r),
        context_view_wf(c1),
        find_id(c1.routes, r.id) matches Some(i) && c2.routes == c1.routes.remove(i),
        context_view_wf(c2),
    ensures
        c2 == c0,
{
    lemma_find_id_props(c0.routes, r.id);
    lemma_find_id_props(c1.routes, r.id);
    let i = find_id(c1.routes, r.id)->Some_0;
    assert(c1.routes[c0.routes.len() as int] == r);
    assert(i == c0.routes.len()) by {
        if i < c0.routes.len() {
            assert(c1.routes[i] == c0.routes[i]);
        }
    }
    assert(c2.routes =~= c0.routes);
    assert(c2.table == c0.table);
    assert(c2.index == c0.index);
}

/// No enabled upstream anywhere carries this address.
pub open spec fn no_enabled_with_address(routes: Seq<RouteView>, addr: AddressView) -> bool {
    forall|i: int, k: int|
        0 <= i < routes.len() && 0 <= k < strategy_upstreams(routes[i].strategy).len() ==> ((
        #[trigger] strategy_upstreams(routes[i].strategy)[k]).address == addr ==> !(
        strategy_upstreams(routes[i].strategy)[k]).enabled)
}

/// Disabling an address everywhere leaves no enabled upstream with it.
pub proof fn lemma_disable_all_disables(routes: Seq<RouteView>, addr: AddressView)
    ensures
        no_enabled_with_address(spec_set_all(routes, addr, false), addr),
{
    let out = spec_set_all(routes, addr, false);
    assert forall|i: int, k: int|
        0 <= i < out.len() && 0 <= k < strategy_upstreams(out[i].strategy).len() implies ((
    #[trigger] strategy_upstreams(out[i].strategy)[k]).address == addr ==> !(strategy_upstreams(
        out[i].strategy,
    )[k]).enabled) by {
        assert(out[i].strategy == spec_strategy_set_enabled(routes[i].strategy, addr, false));
    }
}

/// While no enabled upstream carries an address, no lookup returns it, and
/// a lookup leaves it that way: after `disable_upstream_for_all_routes`,
/// every subsequent lookup answers with a different address or none.
pub proof fn lemma_disabled_address_never_selected(
    c: ContextView,
    addr: AddressView,
    p: Seq<char>,
    m: Seq<char>,
)
    requires
        no_enabled_with_address(c.routes, addr),
    ensures
        spec_lookup(c, p, m) matches Ok((c2, pick)) ==> ((pick matches Some(u) ==> u.address
            != addr) && no_enabled_with_address(c2.routes, addr)),
{
    match spec_find_route_index(c, p, m) {
        Err(_) => {},
        Ok(None) => {},
        Ok(Some(i)) => {
            if 0 <= i < c.routes.len() {
                crate::upstream::lemma_strategy_next_props(c.routes[i].strategy);
                let stepped = spec_strategy_next(c.routes[i].strategy);
                let c2 = spec_lookup(c, p, m)->Ok_0.0;
                match stepped.1 {
                    Some(u) => {
                        let ups = strategy_upstreams(c.routes[i].strategy);
                        let k = choose|k: int| 0 <= k < ups.len() && ups[k] == u;
                        assert(u.address == addr ==> !u.enabled);
                    },
                    None => {},
                }
                assert forall|a: int, k: int|
                    0 <= a < c2.routes.len() && 0 <= k < strategy_upstreams(
                        c2.routes[a].strategy,
                    ).len() implies ((#[trigger] strategy_upstreams(c2.routes[a].strategy)[k]).address
                    == addr ==> !(strategy_upstreams(c2.routes[a].strategy)[k]).enabled) by {
                    if a == i {
                        assert(strategy_upstreams(c2.routes[a].strategy) == strategy_upstreams(
                            c.routes[i].strategy,
                        ));
                    } else {
                        assert(c2.routes[a] == c.routes[a]);
                    }
                }
            }
        },
    }
}


/// What stands in one path's entries: exactly that path crossed with the
/// route's methods, all pointing at the route.
proof fn lemma_pairs_of_member(
    p: Seq<char>,
    methods: Seq<Seq<char>>,
    i: int,
    x: ((Seq<char>, Seq<char>), int),
)
    ensures
        pairs_of(p, methods, i).contains(x) <==> (x.0.0 == p && methods.contains(x.0.1) && x.1
            == i),
    decreases methods.len(),
{
    let entries = pairs_of(p, methods, i);
    if methods.len() == 0 {
        assert(!entries.contains(x));
        assert(!methods.contains(x.0.1));
    } else {
        lemma_pairs_of_member(p, methods.drop_last(), i, x);
        let shorter = pairs_of(p, methods.drop_last(), i);
        assert(entries == shorter.push(((p, methods.last()), i)));
        assert(entries.contains(x) <==> (shorter.contains(x) || x == ((p, methods.last()), i)))
            by {
            if entries.contains(x) {
                let k = choose|k: int| 0 <= k < entries.len() && entries[k] == x;
                if k < entries.len() - 1 {
                    assert(shorter[k] == x);
                }
            }
            if shorter.contains(x) {
                let k = choose|k: int| 0 <= k < shorter.len() && shorter[k] == x;
                assert(entries[k] == x);
            }
            if x == ((p, methods.last()), i) {
                assert(entries[entries.len() - 1] == x);
            }
        }
        assert(methods.contains(x.0.1) <==> (methods.drop_last().contains(x.0.1) || x.0.1
            == methods.last())) by {
            if methods.contains(x.0.1) {
                let k = choose|k: int| 0 <= k < methods.len() && methods[k] == x.0.1;
                if k < methods.len() - 1 {
                    assert(methods.drop_last()[k] == x.0.1);
                }
            }
            if methods.drop_last().contains(x.0.1) {
                let k = choose|k: int|
                    0 <= k < methods.drop_last().len() && methods.drop_last()[k] == x.0.1;
                assert(methods[k] == x.0.1);
            }
            if x.0.1 == methods.last() {
                assert(methods[methods.len() - 1] == x.0.1);
            }
        }
    }
}

/// What stands in one route's entries: exactly its paths crossed with its
/// methods, all pointing at the route.
proof fn lemma_entries_of_member(
    paths: Seq<Seq<char>>,
    methods: Seq<Seq<char>>,
    i: int,
    x: ((Seq<char>, Seq<char>), int),
)
    ensures
        entries_of(paths, methods, i).contains(x) <==> (paths.contains(x.0.0) && methods.contains(
            x.0.1,
        ) && x.1 == i),
    decreases paths.len(),
{
    let entries = entries_of(paths, methods, i);
    if paths.len() == 0 {
        assert(!entries.contains(x));
        assert(!paths.contains(x.0.0));
    } else {
        lemma_entries_of_member(paths.drop_last(), methods, i, x);
        lemma_pairs_of_member(paths.last(), methods, i, x);
        let left = entries_of(paths.drop_last(), methods, i);
        let right = pairs_of(paths.last(), methods, i);
        assert(entries == left + right);
        assert(entries.contains(x) <==> (left.contains(x) || right.contains(x))) by {
            if entries.contains(x) {
                let k = choose|k: int| 0 <= k < entries.len() && entries[k] == x;
                if k < left.len() {
                    assert(left[k] == x);
                } else {
                    assert(right[k - left.len()] == x);
                }
            }
            if left.contains(x) {
                let k = choose|k: int| 0 <= k < left.len() && left[k] == x;
                assert(entries[k] == x);
            }
            if right.contains(x) {
                let k = choose|k: int| 0 <= k < right.len() && right[k] == x;
                assert(entries[left.len() + k] == x);
            }
        }
        assert(paths.contains(x.0.0) <==> (paths.drop_last().contains(x.0.0) || x.0.0
            == paths.last())) by {
            if paths.contains(x.0.0) {
                let k = choose|k: int| 0 <= k < paths.len() && paths[k] == x.0.0;
                if k < paths.len() - 1 {
                    assert(paths.drop_last()[k] == x.0.0);
                }
            }
            if paths.drop_last().contains(x.0.0) {
                let k = choose|k: int|
                    0 <= k < paths.drop_last().len() && paths.drop_last()[k] == x.0.0;
                assert(paths[k] == x.0.0);
            }
            if x.0.0 == paths.last() {
                assert(paths[paths.len() - 1] == x.0.0);
            }
        }
    }
}

/// What stands in the accelerator of the first `n` routes: exactly the
/// `(path, method)` pairs those routes list, each pointing at its route.
proof fn lemma_table_upto_member(routes: Seq<RouteView>, n: int, x: ((Seq<char>, Seq<char>), int))
    requires
        n <= routes.len(),
    ensures
        spec_table_upto(routes, n).contains(x) <==> (0 <= x.1 < n && routes[x.1].paths.contains(
            x.0.0,
        ) && routes[x.1].methods.contains(x.0.1)),
    decreases n,
{
    let entries = spec_table_upto(routes, n);
    if n <= 0 {
        assert(!entries.contains(x));
    } else {
        lemma_table_upto_member(routes, n - 1, x);
        lemma_entries_of_member(routes[n - 1].paths, routes[n - 1].methods, n - 1, x);
        let left = spec_table_upto(routes, n - 1);
        let right = entries_of(routes[n - 1].paths, routes[n - 1].methods, n - 1);
        assert(entries == left + right);
        assert(entries.contains(x) <==> (left.contains(x) || right.contains(x))) by {
            if entries.contains(x) {
                let k = choose|k: int| 0 <= k < entries.len() && entries[k] == x;
                if k < left.len() {
                    assert(left[k] == x);
                } else {
                    assert(right[k - left.len()] == x);
                }
            }
            if left.contains(x) {
                let k = choose|k: int| 0 <= k < left.len() && left[k] == x;
                assert(entries[k] == x);
            }
            if right.contains(x) {
                let k = choose|k: int| 0 <= k < right.len() && right[k] == x;
                assert(entries[left.len() + k] == x);
            }
        }
    }
}

/// What an exact lookup in any accelerator says: a hit is an entry of the
/// accelerator under that key, and a miss means no entry carries the key.
proof fn lemma_table_lookup_member(
    table: Seq<((Seq<char>, Seq<char>), int)>,
    p: Seq<char>,
    m: Seq<char>,
)
    ensures
        match table_lookup(table, p, m) {
            Some(i) => table.contains(((p, m), i)),
            None => forall|k: int| 0 <= k < table.len() ==> (#[trigger] table[k]).0 != (p, m),
        },
    decreases table.len(),
{
    if table.len() > 0 {
        lemma_table_lookup_member(table.drop_last(), p, m);
        if table.last().0 == (p, m) {
            assert(table[table.len() - 1] == ((p, m), table.last().1));
        } else {
            match table_lookup(table.drop_last(), p, m) {
                Some(i) => {
                    let k = choose|k: int|
                        0 <= k < table.drop_last().len() && table.drop_last()[k] == ((p, m), i);
                    assert(table[k] == ((p, m), i));
                },
                None => {
                    assert(forall|k: int|
                        0 <= k < table.len() - 1 ==> table[k] == table.drop_last()[k]);
                },
            }
        }
    }
}

/// The exact-match accelerator characterised: under the table's invariant,
/// an exact lookup of `(path, method)` resolves to a route that lists both,
/// and misses exactly when no route lists both.
pub proof fn lemma_exact_match_characterisation(routes: Seq<RouteView>, p: Seq<char>, m: Seq<char>)
    ensures
        match table_lookup(spec_table(routes), p, m) {
            Some(i) => 0 <= i < routes.len() && routes[i].paths.contains(p)
                && routes[i].methods.contains(m),
            None => forall|i: int|
                0 <= i < routes.len() ==> !((#[trigger] routes[i]).paths.contains(p)
                    && routes[i].methods.contains(m)),
        },
{
    let table = spec_table(routes);
    lemma_table_lookup_member(table, p, m);
    match table_lookup(table, p, m) {
        Some(i) => {
            lemma_table_upto_member(routes, routes.len() as int, ((p, m), i));
        },
        None => {
            assert forall|i: int|
                0 <= i < routes.len() implies !((#[trigger] routes[i]).paths.contains(p)
                && routes[i].methods.contains(m)) by {
                if routes[i].paths.contains(p) && routes[i].methods.contains(m) {
                    lemma_table_upto_member(routes, routes.len() as int, ((p, m), i));
                    let k = choose|k: int| 0 <= k < table.len() && table[k] == ((p, m), i);
                    assert(table[k].0 == (p, m));
                }
            }
        },
    }
}

} // verus!
