use hapi::api::{classify_request, ApiRequest};
use hapi::context::{Context, CoreError};
use hapi::events::{Command, Event};
use hapi::handlers::{
    answer_add_route, answer_search_upstream, handle_command, stats_on_command, stats_on_event,
};
use hapi::poller::Poller;
use hapi::probes::{probe_tick, probes_on_route_added, probes_on_route_removed, ProbeRegistry};
use hapi::route::Route;
use hapi::serial;
use hapi::settings::{socket_address, HapiSettings, ProbeSettings};
use hapi::stats::Stats;
use hapi::upstream::{Upstream, UpstreamAddress, UpstreamStrategy};

fn two_upstream_route() -> Route {
    Route::build(
        String::from("r1"),
        String::from("route1"),
        vec![String::from("GET")],
        vec![String::from("/x")],
        UpstreamStrategy::RoundRobin {
            upstreams: vec![
                Upstream::build_from_fqdn("a:1"),
                Upstream::build_from_fqdn("b:2"),
            ],
            next_index: 0,
        },
    )
}

fn lookup_address(context: &mut Context, path: &str, method: &str) -> Option<String> {
    context
        .upstream_lookup(path, method)
        .unwrap()
        .map(|u| u.address.to_string())
}

#[test]
fn round_robin_over_two() {
    let mut context = Context::build_empty();
    context.add_route(two_upstream_route()).unwrap();

    assert_eq!(Some(String::from("a:1")), lookup_address(&mut context, "/x", "GET"));
    assert_eq!(Some(String::from("b:2")), lookup_address(&mut context, "/x", "GET"));
    assert_eq!(Some(String::from("a:1")), lookup_address(&mut context, "/x", "GET"));
    assert_eq!(Some(String::from("b:2")), lookup_address(&mut context, "/x", "GET"));
}

#[test]
fn disable_mid_rotation() {
    let mut context = Context::build_empty();
    context.add_route(two_upstream_route()).unwrap();
    for _ in 0..4 {
        lookup_address(&mut context, "/x", "GET").unwrap();
    }

    let a = UpstreamAddress::FQDN(String::from("a:1"));
    context.disable_upstream_for_all_routes(&a).unwrap();
    assert_eq!(Some(String::from("b:2")), lookup_address(&mut context, "/x", "GET"));
    assert_eq!(Some(String::from("b:2")), lookup_address(&mut context, "/x", "GET"));
    assert_eq!(Some(String::from("b:2")), lookup_address(&mut context, "/x", "GET"));

    context.enable_upstream_for_all_routes(&a).unwrap();
    assert_eq!(Some(String::from("a:1")), lookup_address(&mut context, "/x", "GET"));
    assert_eq!(Some(String::from("b:2")), lookup_address(&mut context, "/x", "GET"));
}

#[test]
fn regex_path_match() {
    let mut context = Context::build_empty();
    let route = Route::build(
        String::from("rx"),
        String::from("regex route"),
        vec![String::from("GET")],
        vec![String::from("^uri.*$")],
        UpstreamStrategy::AlwaysFirst {
            upstreams: vec![Upstream::build_from_fqdn("u20")],
        },
    );
    context.add_route(route).unwrap();

    assert_eq!(Some(String::from("u20")), lookup_address(&mut context, "uri10", "GET"));
    assert_eq!(None, lookup_address(&mut context, "uri10", "POST"));
}

#[test]
fn add_remove_round_trip() {
    let mut context = Context::build_empty();
    let route = two_upstream_route();

    assert!(context.add_route(route.clone()).is_ok());
    let all = context.get_all_routes().unwrap();
    assert_eq!(1, all.len());
    assert_eq!(route, all[0]);

    let removed = context.remove_route("r1").unwrap();
    assert_eq!(route, removed);
    assert_eq!(0, context.get_all_routes().unwrap().len());
    assert_eq!(0, context.get_all_upstreams().unwrap().len());
    assert_eq!(Err(CoreError::RouteNotExists), context.remove_route("r1"));
}

#[test]
fn probe_flap() {
    let mut poller = Poller::build(2, 2);
    let addr = UpstreamAddress::FQDN(String::from("a:1"));

    let t1 = probe_tick(&mut poller, false, &addr, String::from("c1"));
    assert!(t1.is_none());
    let t2 = probe_tick(&mut poller, false, &addr, String::from("c2"));
    match t2 {
        Some(Command::DisableUpstream { id, upstream_address }) => {
            assert_eq!("c2", id.as_str());
            assert_eq!(addr, upstream_address);
        }
        other => panic!("expected a disable command, got {:?}", other),
    }
    let t3 = probe_tick(&mut poller, true, &addr, String::from("c3"));
    assert!(t3.is_none());
    let t4 = probe_tick(&mut poller, false, &addr, String::from("c4"));
    assert!(t4.is_none());
    let t5 = probe_tick(&mut poller, true, &addr, String::from("c5"));
    assert!(t5.is_none());
    let t6 = probe_tick(&mut poller, true, &addr, String::from("c6"));
    match t6 {
        Some(Command::EnableUpstream { id, upstream_address }) => {
            assert_eq!("c6", id.as_str());
            assert_eq!(addr, upstream_address);
        }
        other => panic!("expected an enable command, got {:?}", other),
    }
}

#[test]
fn request_then_stat() {
    let mut context = Context::build_empty();
    context.add_route(two_upstream_route()).unwrap();
    let mut stats = Stats::build();

    let command = Command::LookupUpstream {
        id: String::from("q1"),
        client: String::from("1.2.3.4"),
        path: String::from("/x"),
        method: String::from("GET"),
    };
    let event = handle_command(&mut context, command).unwrap();
    match &event {
        Event::UpstreamWasFound { upstream_address, .. } => {
            assert_eq!("a:1", upstream_address.to_string().as_str());
        }
        other => panic!("expected a found upstream, got {:?}", other),
    }
    stats_on_event(&mut stats, &event);

    let answer = stats_on_command(&stats, &Command::LookupStats { id: String::from("q2") });
    match answer {
        Some(Event::StatsWereFound { cmd_id, stats: rows }) => {
            assert_eq!("q2", cmd_id.as_str());
            assert_eq!(1, rows.len());
            let row = &rows[0];
            assert_eq!("1.2.3.4", row.0.as_str());
            assert_eq!("GET", row.1.as_str());
            assert_eq!("/x", row.2.as_str());
            assert_eq!("a:1", row.3.as_str());
            assert_eq!(1, row.4);
        }
        other => panic!("expected the stats rows, got {:?}", other),
    }
}

#[test]
fn empty_path_and_method_lookup() {
    let mut empty = Context::build_empty();
    assert_eq!(Ok(None), empty.upstream_lookup("", ""));

    let mut context = Context::build_empty();
    let route = Route::build(
        String::from("e1"),
        String::from("empty keys"),
        vec![String::new()],
        vec![String::new()],
        UpstreamStrategy::AlwaysFirst {
            upstreams: vec![Upstream::build_from_fqdn("u1")],
        },
    );
    context.add_route(route).unwrap();
    assert_eq!(Some(String::from("u1")), lookup_address(&mut context, "", ""));
}

#[test]
fn duplicate_add_reports_error_and_changes_nothing() {
    let mut context = Context::build_empty();
    context.add_route(two_upstream_route()).unwrap();
    let before = context.get_all_routes().unwrap();

    let result = context.add_route(two_upstream_route());

    assert_eq!(Err(CoreError::RouteAlreadyExists), result);
    assert_eq!(before, context.get_all_routes().unwrap());
}

#[test]
fn missing_remove_reports_error_and_changes_nothing() {
    let mut context = Context::build_empty();
    context.add_route(two_upstream_route()).unwrap();
    let before = context.get_all_routes().unwrap();

    let result = context.remove_route("missing");

    assert_eq!(Err(CoreError::RouteNotExists), result);
    assert_eq!(before, context.get_all_routes().unwrap());
}

#[test]
fn broken_stored_pattern_fails_lookup() {
    let mut context = Context::build_empty();
    let route = Route::build(
        String::from("bad"),
        String::from("broken pattern"),
        vec![String::from("GET")],
        vec![String::from("([")],
        UpstreamStrategy::AlwaysFirst {
            upstreams: vec![Upstream::build_from_fqdn("u1")],
        },
    );
    context.add_route(route).unwrap();

    assert_eq!(
        Err(CoreError::CannotCreateRegexp),
        context.upstream_lookup("/nope", "GET")
    );
}

#[test]
fn address_string_forms() {
    let ip = UpstreamAddress::IPv4((10, 0, 255, 3, 65535));
    assert_eq!("10.0.255.3:65535", ip.to_string().as_str());
    let host = UpstreamAddress::FQDN(String::from("example.test:8080"));
    assert_eq!("example.test:8080", host.to_string().as_str());
    assert_eq!("127.0.0.1:3000", socket_address("127.0.0.1", 3000).as_str());
}

#[test]
fn ipv4_parse_rejects_non_canonical_forms() {
    assert_eq!(None, serial::parse_ipv4("256.1.1.1"));
    assert_eq!(None, serial::parse_ipv4("01.2.3.4"));
    assert_eq!(None, serial::parse_ipv4("1.2.3"));
    assert_eq!(None, serial::parse_ipv4("1.2.3.4:"));
    assert_eq!(None, serial::parse_ipv4("1.2.3.4:70000"));
    assert_eq!(None, serial::parse_ipv4("1.2.3.4:08"));
    assert_eq!(None, serial::parse_ipv4("a.b.c.d"));
    assert_eq!(None, serial::parse_ipv4("1.2.3.4.5"));
    assert_eq!(Some((0, 0, 0, 0, 0)), serial::parse_ipv4("0.0.0.0:0"));
}

#[test]
fn wire_round_trip_keeps_route() {
    let route = Route::build(
        String::from("w1"),
        String::from("wire route"),
        vec![String::from("GET"), String::from("POST")],
        vec![String::from("/a"), String::from("/b")],
        UpstreamStrategy::RoundRobin {
            upstreams: vec![
                Upstream::build_from_fqdn("host.test"),
                Upstream::build_from_ipv4((192, 168, 0, 1, 8080)),
            ],
            next_index: 0,
        },
    );

    let wire = serial::Route::from_model(&route);
    let back = wire.into_model();

    assert_eq!(route, back);
}

#[test]
fn management_requests_classify_by_method_and_path() {
    assert_eq!(ApiRequest::ListRoutes, classify_request("GET", "/routes"));
    assert_eq!(
        ApiRequest::GetRoute(String::from("abc")),
        classify_request("GET", "/routes/abc")
    );
    assert_eq!(ApiRequest::CreateRoute, classify_request("POST", "/routes"));
    assert_eq!(
        ApiRequest::DeleteRoute(String::from("abc")),
        classify_request("DELETE", "/routes/abc")
    );
    assert_eq!(ApiRequest::ListUpstreams, classify_request("GET", "/upstreams"));
    assert_eq!(ApiRequest::ListStats, classify_request("GET", "/stats"));
    assert_eq!(ApiRequest::Unknown, classify_request("GET", "/nope"));
    assert_eq!(ApiRequest::Unknown, classify_request("PATCH", "/routes"));
    assert_eq!(ApiRequest::Unknown, classify_request("GET", ""));
}

#[test]
fn probe_registry_counts_references() {
    let mut registry = ProbeRegistry::build(None);
    let a = UpstreamAddress::FQDN(String::from("a:1"));

    assert!(registry.add_probe(&a).is_some()); // fresh: spawn
    assert!(registry.add_probe(&a).is_none()); // covered: just count
    assert!(registry.remove_probe(&a).is_none()); // one reference left
    assert!(registry.remove_probe(&a).is_some()); // last reference: cancel
    assert!(registry.remove_probe(&a).is_none()); // unknown address
}

#[test]
fn supervisor_spawns_once_per_distinct_upstream() {
    let mut registry = ProbeRegistry::build(None);
    let route = two_upstream_route();

    let spawned = probes_on_route_added(&mut registry, &route);
    assert_eq!(2, spawned.len());
    assert_eq!("a:1", spawned[0].to_string().as_str());
    assert_eq!("b:2", spawned[1].to_string().as_str());

    // a second route over the same upstreams spawns nothing new
    let mut route2 = two_upstream_route();
    route2.id = String::from("r2");
    let spawned2 = probes_on_route_added(&mut registry, &route2);
    assert_eq!(0, spawned2.len());

    // removing one route keeps both probes; removing the other cancels both
    let cancelled = probes_on_route_removed(&mut registry, &route);
    assert_eq!(0, cancelled.len());
    let cancelled2 = probes_on_route_removed(&mut registry, &route2);
    assert_eq!(2, cancelled2.len());
}

#[test]
fn probe_settings_prefer_configured_entry() {
    let configured = ProbeSettings {
        upstream_address: String::from("a:1"),
        poll_interval_ms: 250,
        error_count: 2,
        success_count: 4,
    };
    let registry = ProbeRegistry::build(Some(vec![configured.clone()]));

    let a = UpstreamAddress::FQDN(String::from("a:1"));
    assert_eq!(configured, registry.probe_settings_for(&a));

    let other = UpstreamAddress::FQDN(String::from("b:2"));
    let fallback = registry.probe_settings_for(&other);
    assert_eq!("b:2", fallback.upstream_address.as_str());
    assert_eq!(1000, fallback.poll_interval_ms);
    assert_eq!(5, fallback.error_count);
    assert_eq!(5, fallback.success_count);
}

#[test]
fn issuer_recognises_only_its_answer() {
    let id = String::from("cmd-1");
    let found = Event::UpstreamWasFound {
        cmd_id: String::from("cmd-1"),
        upstream_address: UpstreamAddress::FQDN(String::from("a:1")),
        client: String::from("c"),
        path: String::from("/x"),
        method: String::from("GET"),
    };
    let foreign = Event::UpstreamWasFound {
        cmd_id: String::from("cmd-2"),
        upstream_address: UpstreamAddress::FQDN(String::from("b:2")),
        client: String::from("c"),
        path: String::from("/x"),
        method: String::from("GET"),
    };
    let unrelated = Event::RouteWasNotFound {
        cmd_id: String::from("cmd-1"),
        route_id: String::from("r"),
    };

    let hit = answer_search_upstream(&id, &found);
    assert_eq!(
        Some(Some(UpstreamAddress::FQDN(String::from("a:1")))),
        hit
    );
    assert_eq!(None, answer_search_upstream(&id, &foreign));
    assert_eq!(None, answer_search_upstream(&id, &unrelated));

    let added = Event::RouteWasAdded {
        cmd_id: String::from("cmd-1"),
        route: two_upstream_route(),
    };
    assert_eq!(Some(Ok(())), answer_add_route(&id, &added));
    let refused = Event::RouteWasNotAdded {
        cmd_id: String::from("cmd-1"),
        route: two_upstream_route(),
        error: CoreError::RouteAlreadyExists,
    };
    assert_eq!(
        Some(Err(CoreError::RouteAlreadyExists)),
        answer_add_route(&id, &refused)
    );
}

#[test]
fn settings_build_model_routes() {
    let settings = HapiSettings {
        ip_address: String::from("127.0.0.1"),
        port: 3000,
        probes: None,
        routes: vec![serial::Route {
            id: String::from("s1"),
            name: String::from("from settings"),
            methods: vec![String::from("GET")],
            paths: vec![String::from("/x")],
            strategy: serial::Strategy::RoundRobin,
            upstreams: vec![String::from("10.0.0.1:81"), String::from("host.test")],
        }],
        api_ip_address: String::from("127.0.0.1"),
        api_port: 3001,
    };

    assert_eq!("127.0.0.1:3000", settings.server_address_string().as_str());
    assert_eq!("127.0.0.1:3001", settings.api_address_string().as_str());

    let routes = settings.routes();
    assert_eq!(1, routes.len());
    let ups = routes[0].get_upstreams();
    assert_eq!(2, ups.len());
    assert_eq!(UpstreamAddress::IPv4((10, 0, 0, 1, 81)), ups[0].address);
    assert_eq!(
        UpstreamAddress::FQDN(String::from("host.test")),
        ups[1].address
    );
    assert!(ups[0].enabled && ups[1].enabled);
}

#[test]
fn stats_count_by_full_tuple() {
    let mut stats = Stats::build();
    stats.count_request("1.2.3.4", "GET", "/x", "a:1");
    stats.count_request("1.2.3.4", "GET", "/x", "a:1");
    stats.count_request("1.2.3.4", "GET", "/y", "a:1");

    let rows = stats.get_all();
    assert_eq!(2, rows.len());
    assert_eq!(
        (
            String::from("1.2.3.4"),
            String::from("GET"),
            String::from("/x"),
            String::from("a:1"),
            2
        ),
        rows[0]
    );
    assert_eq!(
        (
            String::from("1.2.3.4"),
            String::from("GET"),
            String::from("/y"),
            String::from("a:1"),
            1
        ),
        rows[1]
    );
}
