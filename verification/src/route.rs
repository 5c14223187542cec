//! Routes: an identity, the `(method, path)` pairs a rule covers, and the
//! owned strategy that picks an upstream for each matching request.

use vstd::prelude::*;

use crate::upstream::{
    spec_strategy_next, spec_strategy_set_enabled, strategy_upstreams, StrategyView, Upstream,
    UpstreamAddress, UpstreamStrategy, UpstreamView,
};

verus! {

/// A routing rule: requests whose path and method match one of `paths` and
/// `methods` are forwarded to one of the strategy's upstreams.
#[derive(Debug, PartialEq)]
pub struct Route {
    pub id: String,
    pub name: String,
    pub methods: Vec<String>,
    pub paths: Vec<String>,
    pub strategy: UpstreamStrategy,
}

/// The mathematical form of a route.
pub struct RouteView {
    pub id: Seq<char>,
    pub name: Seq<char>,
    pub methods: Seq<Seq<char>>,
    pub paths: Seq<Seq<char>>,
    pub strategy: StrategyView,
}

impl View for Route {
    type V = RouteView;

    open spec fn view(&self) -> RouteView {
        RouteView {
            id: self.id@,
            name: self.name@,
            methods: self.methods.deep_view(),
            paths: self.paths.deep_view(),
            strategy: self.strategy@,
        }
    }
}

/// A copy of a list of strings, value for value.
pub(crate) fn clone_strings(v: &Vec<String>) -> (r: Vec<String>)
    ensures
        r.deep_view() == v.deep_view(),
{
    let mut r: Vec<String> = Vec::new();
    let mut i: usize = 0;
    while i < v.len()
        invariant
            i <= v.len(),
            r@.len() == i,
            forall|j: int| 0 <= j < i ==> r@[j]@ == v@[j]@,
        decreases v.len() - i,
    {
        r.push(v[i].clone());
        i = i + 1;
    }
    proof {
        assert(r.deep_view() =~= v.deep_view());
    }
    r
}

/// A copy of a route list, value for value.
pub(crate) fn clone_routes(v: &Vec<Route>) -> (r: Vec<Route>)
    ensures
        r@.map_values(|x: Route| x@) == v@.map_values(|x: Route| x@),
{
    let mut r: Vec<Route> = Vec::new();
    let mut i: usize = 0;
    while i < v.len()
        invariant
            i <= v.len(),
            r@.len() == i,
            forall|j: int| 0 <= j < i ==> r@[j]@ == v@[j]@,
        decreases v.len() - i,
    {
        r.push(v[i].clone());
        i = i + 1;
    }
    proof {
        assert(r@.map_values(|x: Route| x@) =~= v@.map_values(|x: Route| x@));
    }
    r
}

impl Clone for Route {
    fn clone(&self) -> (r: Self)
        ensures
            r@ == self@,
    {
        Route {
            id: self.id.clone(),
            name: self.name.clone(),
            methods: clone_strings(&self.methods),
            paths: clone_strings(&self.paths),
            strategy: self.strategy.clone(),
        }
    }
}

impl Route {
    /// A route from its parts.
    pub fn build(
        id: String,
        name: String,
        methods: Vec<String>,
        paths: Vec<String>,
        strategy: UpstreamStrategy,
    ) -> (r: Self)
        ensures
            r@ == (RouteView {
                id: id@,
                name: name@,
                methods: methods.deep_view(),
                paths: paths.deep_view(),
                strategy: strategy@,
            }),
    {
        Route { id, name, methods, paths, strategy }
    }

    /// Picks the next available upstream per this route's strategy: one
    /// enabled upstream, or none when every upstream is disabled.
    pub fn next_available_upstream(&mut self) -> (r: Option<Upstream>)
        ensures
            final(self)@ == (RouteView {
                strategy: spec_strategy_next(old(self)@.strategy).0,
                ..old(self)@
            }),
            match r {
                Some(u) => spec_strategy_next(old(self)@.strategy).1 == Some(u@),
                None => spec_strategy_next(old(self)@.strategy).1 is None,
            },
    {
        self.strategy.next()
    }

    /// Enables every upstream of this route whose address equals the given one.
    pub fn enable_upstream(&mut self, upstream: &UpstreamAddress)
        ensures
            final(self)@ == (RouteView {
                strategy: spec_strategy_set_enabled(old(self)@.strategy, upstream@, true),
                ..old(self)@
            }),
    {
        self.strategy.enable_upstream(upstream)
    }

    /// Disables every upstream of this route whose address equals the given one.
    pub fn disable_upstream(&mut self, upstream: &UpstreamAddress)
        ensures
            final(self)@ == (RouteView {
                strategy: spec_strategy_set_enabled(old(self)@.strategy, upstream@, false),
                ..old(self)@
            }),
    {
        self.strategy.disable_upstream(upstream)
    }

    /// Borrows the route's full upstream list, disabled entries included.
    pub fn get_upstreams(&self) -> (r: &Vec<Upstream>)
        ensures
            r@.map_values(|u: Upstream| u@) == strategy_upstreams(self@.strategy),
    {
        self.strategy.get_upstreams()
    }
}

} // verus!
