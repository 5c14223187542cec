//! The subsystems' decision cores: what each bus command does to the routing
//! table or the counters, which event answers it, and how an issuer
//! recognises the answer to its own command. The loops that receive and
//! send on the channels live outside the library; they hand values in and
//! carry values out.

use vstd::prelude::*;

use crate::context::{
    all_upstreams, contains_id, dedup, find_id, spec_lookup, spec_set_all, Context, CoreError,
};
use crate::events::{Command, Event};
use crate::route::{clone_routes, Route};
use crate::stats::{spec_count, StatKeyView, Stats};
use crate::upstream::{address_chars, Upstream, UpstreamAddress};

verus! {

/// The addresses of the given upstreams, in order.
fn addresses_of(ups: &Vec<Upstream>) -> (r: Vec<UpstreamAddress>)
    ensures
        r@.len() == ups@.len(),
        forall|j: int| 0 <= j < r@.len() ==> r@[j]@ == ups@[j]@.address,
{
    let mut r: Vec<UpstreamAddress> = Vec::new();
    let mut i: usize = 0;
    while i < ups.len()
        invariant
            i <= ups.len(),
            r@.len() == i,
            forall|j: int| 0 <= j < i ==> r@[j]@ == ups@[j]@.address,
        decreases ups.len() - i,
    {
        r.push(ups[i].address.clone());
        i = i + 1;
    }
    r
}

/// What the routing core does with one command: the table is updated, and
/// the answering event carries the outcome. Commands for other subsystems,
/// and lookups that fail on a broken stored pattern, produce no event.
pub fn handle_command(context: &mut Context, command: Command) -> (r: Option<Event>)
    requires
        old(context).wf(),
    ensures
        final(context).wf(),
        command matches Command::LookupUpstream { id, client, path, method } ==> (match spec_lookup(
            old(context)@,
            path@,
            method@,
        ) {
            Err(_) => r is None && final(context)@ == old(context)@,
            Ok((c2, pick)) => final(context)@ == c2 && (match pick {
                Some(u) => (r matches Some(e) && (e matches Event::UpstreamWasFound {
                    cmd_id,
                    upstream_address,
                    client: ec,
                    path: ep,
                    method: em,
                } && cmd_id@ == id@ && upstream_address@ == u.address && ec@ == client@ && ep@
                    == path@ && em@ == method@)),
                None => (r matches Some(e) && (e matches Event::UpstreamWasNotFound { cmd_id }
                    && cmd_id@ == id@)),
            }),
        }),
        command matches Command::AddRoute { id, route } ==> (if contains_id(
            old(context)@.routes,
            route@.id,
        ) {
            final(context)@ == old(context)@ && (r matches Some(e) && (
            e matches Event::RouteWasNotAdded { cmd_id, route: er, error } && cmd_id@ == id@ && er@
                == route@ && error == CoreError::RouteAlreadyExists))
        } else {
            final(context)@.routes == old(context)@.routes.push(route@) && (r matches Some(e) && (
            e matches Event::RouteWasAdded { cmd_id, route: er } && cmd_id@ == id@ && er@ == route@))
        }),
        command matches Command::RemoveRoute { id, route_id } ==> (match find_id(
            old(context)@.routes,
            route_id@,
        ) {
            Some(i) => final(context)@.routes == old(context)@.routes.remove(i) && (r matches Some(
                e,
            ) && (e matches Event::RouteWasRemoved { cmd_id, route } && cmd_id@ == id@ && route@
                == old(context)@.routes[i])),
            None => final(context)@ == old(context)@ && (r matches Some(e) && (
            e matches Event::RouteWasNotRemoved { cmd_id, route_id: rid, error } && cmd_id@ == id@
                && rid@ == route_id@ && error == CoreError::RouteNotExists)),
        }),
        command matches Command::EnableUpstream { id, upstream_address } ==> (final(context)@.routes
            == spec_set_all(old(context)@.routes, upstream_address@, true) && (r matches Some(e) && (
        e matches Event::UpstreamWasEnabled { cmd_id, upstream_address: ea } && cmd_id@ == id@
            && ea@ == upstream_address@))),
        command matches Command::DisableUpstream { id, upstream_address } ==> (final(context)@.routes == spec_set_all(old(context)@.routes, upstream_address@, false) && (r matches Some(
            e,
        ) && (e matches Event::UpstreamWasDisabled { cmd_id, upstream_address: ea } && cmd_id@
            == id@ && ea@ == upstream_address@))),
        command matches Command::LookupAllRoutes { id } ==> (final(context)@ == old(context)@
            && (r matches Some(e) && (e matches Event::RoutesWereFound { cmd_id, routes } && cmd_id@
            == id@ && routes@.map_values(|x: Route| x@) == old(context)@.routes))),
        command matches Command::LookupRoute { id, route_id } ==> (final(context)@ == old(context)@
            && (match find_id(old(context)@.routes, route_id@) {
            Some(i) => (r matches Some(e) && (e matches Event::RouteWasFound { cmd_id, route }
                && cmd_id@ == id@ && route@ == old(context)@.routes[i])),
            None => (r matches Some(e) && (e matches Event::RouteWasNotFound { cmd_id, route_id: rid }
                && cmd_id@ == id@ && rid@ == route_id@)),
        })),
        command matches Command::LookupAllUpstreams { id } ==> (final(context)@ == old(context)@
            && (r matches Some(e) && (e matches Event::UpstreamsWereFound { cmd_id, upstreams }
            && cmd_id@ == id@ && upstreams@.len() == dedup(
            all_upstreams(old(context)@.routes),
        ).len() && (forall|j: int|
            0 <= j < upstreams@.len() ==> upstreams@[j]@ == dedup(
                all_upstreams(old(context)@.routes),
            )[j].address)))),
        command matches Command::LookupStats { id } ==> (r is None && final(context)@ == old(context)@),
{
    match command {
        Command::LookupUpstream { id, client, path, method } => {
            match context.upstream_lookup(path.as_str(), method.as_str()) {
                Ok(Some(upstream)) => Some(
                    Event::UpstreamWasFound {
                        cmd_id: id,
                        upstream_address: upstream.address,
                        client,
                        path,
                        method,
                    },
                ),
                Ok(None) => Some(Event::UpstreamWasNotFound { cmd_id: id }),
                Err(_) => None,
            }
        },
        Command::AddRoute { id, route } => {
            let for_event = route.clone();
            match context.add_route(route) {
                Ok(_) => Some(Event::RouteWasAdded { cmd_id: id, route: for_event }),
                Err(error) => Some(
                    Event::RouteWasNotAdded { cmd_id: id, route: for_event, error },
                ),
            }
        },
        Command::RemoveRoute { id, route_id } => {
            match context.remove_route(route_id.as_str()) {
                Ok(removed) => Some(Event::RouteWasRemoved { cmd_id: id, route: removed }),
                Err(error) => Some(
                    Event::RouteWasNotRemoved { cmd_id: id, route_id, error },
                ),
            }
        },
        Command::EnableUpstream { id, upstream_address } => {
            match context.enable_upstream_for_all_routes(&upstream_address) {
                Ok(_) => Some(Event::UpstreamWasEnabled { cmd_id: id, upstream_address }),
                Err(_) => None,
            }
        },
        Command::DisableUpstream { id, upstream_address } => {
            match context.disable_upstream_for_all_routes(&upstream_address) {
                Ok(_) => Some(Event::UpstreamWasDisabled { cmd_id: id, upstream_address }),
                Err(_) => None,
            }
        },
        Command::LookupAllRoutes { id } => {
            match context.get_all_routes() {
                Ok(found) => Some(Event::RoutesWereFound { cmd_id: id, routes: found }),
                Err(_) => None,
            }
        },
        Command::LookupRoute { id, route_id } => {
            match context.get_route_by_id(route_id.as_str()) {
                Ok(Some(route)) => Some(
                    Event::RouteWasFound { cmd_id: id, route: route.clone() },
                ),
                Ok(None) => Some(Event::RouteWasNotFound { cmd_id: id, route_id }),
                Err(_) => None,
            }
        },
        Command::LookupAllUpstreams { id } => {
            match context.get_all_upstreams() {
                Ok(ups) => Some(
                    Event::UpstreamsWereFound { cmd_id: id, upstreams: addresses_of(&ups) },
                ),
                Err(_) => None,
            }
        },
        Command::LookupStats { .. } => None,
    }
}

/// Whether this event answers a pending `LookupAllRoutes` with the given
/// correlation id, and with which routes.
pub fn answer_all_routes(cmd_id: &String, event: &Event) -> (r: Option<Vec<Route>>)
    ensures
        match r {
            Some(v) => event matches Event::RoutesWereFound { cmd_id: eid, routes } && eid@
                == cmd_id@ && v@.map_values(|x: Route| x@) == routes@.map_values(|x: Route| x@),
            None => !(event matches Event::RoutesWereFound { cmd_id: eid, routes } && eid@
                == cmd_id@),
        },
{
    match event {
        Event::RoutesWereFound { cmd_id: eid, routes } => {
            if String::eq(eid, cmd_id) {
                Some(clone_routes(routes))
            } else {
                None
            }
        },
        _ => None,
    }
}

/// Whether this event answers a pending `LookupRoute` with the given
/// correlation id: the route when it was found, nothing when it was not.
pub fn answer_route_by_id(cmd_id: &String, event: &Event) -> (r: Option<Option<Route>>)
    ensures
        match r {
            Some(Some(rt)) => event matches Event::RouteWasFound { cmd_id: eid, route } && eid@
                == cmd_id@ && rt@ == route@,
            Some(None) => event matches Event::RouteWasNotFound { cmd_id: eid, .. } && eid@
                == cmd_id@,
            None => !(event matches Event::RouteWasFound { cmd_id: eid, .. } && eid@ == cmd_id@)
                && !(event matches Event::RouteWasNotFound { cmd_id: eid, .. } && eid@ == cmd_id@),
        },
{
    match event {
        Event::RouteWasFound { cmd_id: eid, route } => {
            if String::eq(eid, cmd_id) {
                Some(Some(route.clone()))
            } else {
                None
            }
        },
        Event::RouteWasNotFound { cmd_id: eid, .. } => {
            if String::eq(eid, cmd_id) {
                Some(None)
            } else {
                None
            }
        },
        _ => None,
    }
}

/// Whether this event answers a pending `LookupUpstream` with the given
/// correlation id: the address when one was found, nothing on a miss.
pub fn answer_search_upstream(cmd_id: &String, event: &Event) -> (r: Option<
    Option<UpstreamAddress>,
>)
    ensures
        match r {
            Some(Some(a)) => event matches Event::UpstreamWasFound {
                cmd_id: eid,
                upstream_address,
                ..
            } && eid@ == cmd_id@ && a@ == upstream_address@,
            Some(None) => event matches Event::UpstreamWasNotFound { cmd_id: eid } && eid@
                == cmd_id@,
            None => !(event matches Event::UpstreamWasFound { cmd_id: eid, .. } && eid@ == cmd_id@)
                && !(event matches Event::UpstreamWasNotFound { cmd_id: eid } && eid@ == cmd_id@),
        },
{
    match event {
        Event::UpstreamWasFound { cmd_id: eid, upstream_address, .. } => {
            if String::eq(eid, cmd_id) {
                Some(Some(upstream_address.clone()))
            } else {
                None
            }
        },
        Event::UpstreamWasNotFound { cmd_id: eid } => {
            if String::eq(eid, cmd_id) {
                Some(None)
            } else {
                None
            }
        },
        _ => None,
    }
}

/// Whether this event answers a pending `AddRoute` with the given
/// correlation id: success, or the error the add failed with.
pub fn answer_add_route(cmd_id: &String, event: &Event) -> (r: Option<Result<(), CoreError>>)
    ensures
        match r {
            Some(Ok(())) => event matches Event::RouteWasAdded { cmd_id: eid, .. } && eid@
                == cmd_id@,
            Some(Err(e)) => event matches Event::RouteWasNotAdded { cmd_id: eid, error, .. } && eid@
                == cmd_id@ && e == error,
            None => !(event matches Event::RouteWasAdded { cmd_id: eid, .. } && eid@ == cmd_id@)
                && !(event matches Event::RouteWasNotAdded { cmd_id: eid, .. } && eid@ == cmd_id@),
        },
{
    match event {
        Event::RouteWasAdded { cmd_id: eid, .. } => {
            if String::eq(eid, cmd_id) {
                Some(Ok(()))
            } else {
                None
            }
        },
        Event::RouteWasNotAdded { cmd_id: eid, error, .. } => {
            if String::eq(eid, cmd_id) {
                Some(Err(*error))
            } else {
                None
            }
        },
        _ => None,
    }
}

/// Whether this event answers a pending `RemoveRoute` with the given
/// correlation id: the removed route, or the error the removal failed with.
pub fn answer_remove_route(cmd_id: &String, event: &Event) -> (r: Option<Result<Route, CoreError>>)
    ensures
        match r {
            Some(Ok(rt)) => event matches Event::RouteWasRemoved { cmd_id: eid, route } && eid@
                == cmd_id@ && rt@ == route@,
            Some(Err(e)) => event matches Event::RouteWasNotRemoved { cmd_id: eid, error, .. }
                && eid@ == cmd_id@ && e == error,
            None => !(event matches Event::RouteWasRemoved { cmd_id: eid, .. } && eid@ == cmd_id@)
                && !(event matches Event::RouteWasNotRemoved { cmd_id: eid, .. } && eid@
                == cmd_id@),
        },
{
    match event {
        Event::RouteWasRemoved { cmd_id: eid, route } => {
            if String::eq(eid, cmd_id) {
                Some(Ok(route.clone()))
            } else {
                None
            }
        },
        Event::RouteWasNotRemoved { cmd_id: eid, error, .. } => {
            if String::eq(eid, cmd_id) {
                Some(Err(*error))
            } else {
                None
            }
        },
        _ => None,
    }
}

/// Whether this event answers a pending `LookupAllUpstreams` with the given
/// correlation id, and with which addresses.
pub fn answer_all_upstreams(cmd_id: &String, event: &Event) -> (r: Option<Vec<UpstreamAddress>>)
    ensures
        match r {
            Some(v) => event matches Event::UpstreamsWereFound { cmd_id: eid, upstreams } && eid@
                == cmd_id@ && v@.len() == upstreams@.len() && (forall|j: int|
                0 <= j < v@.len() ==> v@[j]@ == upstreams@[j]@),
            None => !(event matches Event::UpstreamsWereFound { cmd_id: eid, .. } && eid@
                == cmd_id@),
        },
{
    match event {
        Event::UpstreamsWereFound { cmd_id: eid, upstreams } => {
            if String::eq(eid, cmd_id) {
                let mut v: Vec<UpstreamAddress> = Vec::new();
                let mut i: usize = 0;
                while i < upstreams.len()
                    invariant
                        i <= upstreams.len(),
                        v@.len() == i,
                        forall|j: int| 0 <= j < i ==> v@[j]@ == upstreams@[j]@,
                    decreases upstreams.len() - i,
                {
                    v.push(upstreams[i].clone());
                    i = i + 1;
                }
                Some(v)
            } else {
                None
            }
        },
        _ => None,
    }
}

/// Whether this event answers a pending `LookupStats` with the given
/// correlation id, and with which rows.
pub fn answer_all_stats(cmd_id: &String, event: &Event) -> (r: Option<
    Vec<(String, String, String, String, u64)>,
>)
    ensures
        match r {
            Some(v) => event matches Event::StatsWereFound { cmd_id: eid, stats } && eid@ == cmd_id@
                && v@.len() == stats@.len() && (forall|j: int|
                0 <= j < v@.len() ==> (v@[j].0@, v@[j].1@, v@[j].2@, v@[j].3@, v@[j].4) == (
                    stats@[j].0@,
                    stats@[j].1@,
                    stats@[j].2@,
                    stats@[j].3@,
                    stats@[j].4,
                )),
            None => !(event matches Event::StatsWereFound { cmd_id: eid, .. } && eid@ == cmd_id@),
        },
{
    match event {
        Event::StatsWereFound { cmd_id: eid, stats } => {
            if String::eq(eid, cmd_id) {
                let mut v: Vec<(String, String, String, String, u64)> = Vec::new();
                let mut i: usize = 0;
                while i < stats.len()
                    invariant
                        i <= stats.len(),
                        v@.len() == i,
                        forall|j: int|
                            0 <= j < i ==> (v@[j].0@, v@[j].1@, v@[j].2@, v@[j].3@, v@[j].4) == (
                                stats@[j].0@,
                                stats@[j].1@,
                                stats@[j].2@,
                                stats@[j].3@,
                                stats@[j].4,
                            ),
                    decreases stats.len() - i,
                {
                    let e = &stats[i];
                    v.push((e.0.clone(), e.1.clone(), e.2.clone(), e.3.clone(), e.4));
                    i = i + 1;
                }
                Some(v)
            } else {
                None
            }
        },
        _ => None,
    }
}

/// What the stats aggregator does with one command: a stats lookup is
/// answered with every row; other commands are not its business.
pub fn stats_on_command(stats: &Stats, command: &Command) -> (r: Option<Event>)
    ensures
        command matches Command::LookupStats { id } ==> (r matches Some(e) && (
        e matches Event::StatsWereFound { cmd_id, stats: rows } && cmd_id@ == id@ && rows@.len()
            == stats@.rows.len() && (forall|j: int|
            0 <= j < rows@.len() ==> (rows@[j].0@, rows@[j].1@, rows@[j].2@, rows@[j].3@,
            rows@[j].4) == (
                stats@.rows[j].0.client,
                stats@.rows[j].0.method,
                stats@.rows[j].0.path,
                stats@.rows[j].0.upstream,
                stats@.rows[j].1,
            )))),
        !(command matches Command::LookupStats { .. }) ==> r is None,
{
    match command {
        Command::LookupStats { id } => Some(
            Event::StatsWereFound { cmd_id: id.clone(), stats: stats.get_all() },
        ),
        _ => None,
    }
}

/// What the stats aggregator does with one event: a found upstream counts
/// one request under its `(client, method, path, upstream)` tuple; every
/// other event leaves the counters alone.
pub fn stats_on_event(stats: &mut Stats, event: &Event)
    requires
        old(stats).wf(),
    ensures
        final(stats).wf(),
        event matches Event::UpstreamWasFound { upstream_address, client, path, method, .. }
            ==> final(stats)@.rows == spec_count(
            old(stats)@.rows,
            StatKeyView {
                client: client@,
                method: method@,
                path: path@,
                upstream: address_chars(upstream_address@),
            },
        ),
        !(event matches Event::UpstreamWasFound { .. }) ==> final(stats)@ == old(stats)@,
{
    match event {
        Event::UpstreamWasFound { upstream_address, client, path, method, .. } => {
            let upstream = upstream_address.to_string();
            stats.count_request(
                client.as_str(),
                method.as_str(),
                path.as_str(),
                upstream.as_str(),
            );
        },
        _ => {},
    }
}

} // verus!
