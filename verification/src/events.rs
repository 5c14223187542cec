//! The bus vocabulary: commands that ask a subsystem to act, and events
//! that report what happened. Every message carries the correlation id of
//! the command it belongs to.

use vstd::prelude::*;

use crate::context::CoreError;
use crate::route::Route;
use crate::upstream::UpstreamAddress;

verus! {

/// A control-plane verb, carrying its issuer's correlation id.
#[derive(Clone, Debug)]
pub enum Command {
    LookupUpstream { id: String, client: String, path: String, method: String },
    EnableUpstream { id: String, upstream_address: UpstreamAddress },
    DisableUpstream { id: String, upstream_address: UpstreamAddress },
    AddRoute { id: String, route: Route },
    RemoveRoute { id: String, route_id: String },
    LookupAllRoutes { id: String },
    LookupRoute { id: String, route_id: String },
    LookupAllUpstreams { id: String },
    LookupStats { id: String },
}

/// A fact a handler emits, echoing the correlation id of the command it
/// answers.
#[derive(Clone, Debug)]
pub enum Event {
    UpstreamWasFound {
        cmd_id: String,
        upstream_address: UpstreamAddress,
        client: String,
        path: String,
        method: String,
    },
    UpstreamWasNotFound { cmd_id: String },
    UpstreamWasEnabled { cmd_id: String, upstream_address: UpstreamAddress },
    UpstreamWasDisabled { cmd_id: String, upstream_address: UpstreamAddress },
    RouteWasAdded { cmd_id: String, route: Route },
    RouteWasNotAdded { cmd_id: String, route: Route, error: CoreError },
    RouteWasRemoved { cmd_id: String, route: Route },
    RouteWasNotRemoved { cmd_id: String, route_id: String, error: CoreError },
    RoutesWereFound { cmd_id: String, routes: Vec<Route> },
    RouteWasFound { cmd_id: String, route: Route },
    RouteWasNotFound { cmd_id: String, route_id: String },
    UpstreamsWereFound { cmd_id: String, upstreams: Vec<UpstreamAddress> },
    StatWasCounted { cmd_id: String },
    StatsWereFound { cmd_id: String, stats: Vec<(String, String, String, String, u64)> },
}

} // verus!
