use hapi::context::Context;
use hapi::route::Route;
use hapi::upstream::{Upstream, UpstreamAddress, UpstreamStrategy};

fn sample_route_1_af() -> Route {
    let upstreams = vec![
        Upstream::build_from_fqdn("upstream1"),
        Upstream::build_from_fqdn("upstream2"),
    ];
    let strategy = UpstreamStrategy::AlwaysFirst { upstreams };
    Route::build(
        String::from("id1"),
        String::from("route1"),
        vec![String::from("GET")],
        vec![String::from("uri1"), String::from("uri2")],
        strategy,
    )
}

fn sample_route_1_rr() -> Route {
    let upstreams = vec![
        Upstream::build_from_fqdn("upstream1"),
        Upstream::build_from_fqdn("upstream2"),
    ];
    let strategy = UpstreamStrategy::RoundRobin {
        upstreams,
        next_index: 0,
    };
    Route::build(
        String::from("id1"),
        String::from("route1"),
        vec![String::from("GET")],
        vec![String::from("uri1"), String::from("uri2")],
        strategy,
    )
}

fn sample_route_2_af() -> Route {
    let upstreams = vec![
        Upstream::build_from_fqdn("upstream3"),
        Upstream::build_from_fqdn("upstream4"),
    ];
    let strategy = UpstreamStrategy::AlwaysFirst { upstreams };
    Route::build(
        String::from("id2"),
        String::from("route2"),
        vec![String::from("GET")],
        vec![String::from("uri2"), String::from("uri3")],
        strategy,
    )
}

fn sample_route_2_rr() -> Route {
    let upstreams = vec![
        Upstream::build_from_fqdn("upstream3"),
        Upstream::build_from_fqdn("upstream4"),
    ];
    let strategy = UpstreamStrategy::RoundRobin {
        upstreams,
        next_index: 0,
    };
    Route::build(
        String::from("id2"),
        String::from("route2"),
        vec![String::from("GET")],
        vec![String::from("uri2"), String::from("uri3")],
        strategy,
    )
}

fn sample_route_3_af() -> Route {
    let upstreams = vec![
        Upstream::build_from_fqdn("upstream20"),
        Upstream::build_from_fqdn("upstream21"),
    ];
    let strategy = UpstreamStrategy::AlwaysFirst { upstreams };
    Route::build(
        String::from("id3"),
        String::from("route3"),
        vec![String::from("GET")],
        vec![String::from("^uri.*$")],
        strategy,
    )
}

fn sample_route_4_af() -> Route {
    let upstreams = vec![
        Upstream::build_from_fqdn("upstream10"),
        Upstream::build_from_fqdn("upstream11"),
    ];
    let strategy = UpstreamStrategy::AlwaysFirst { upstreams };
    Route::build(
        String::from("id4"),
        String::from("route4"),
        vec![String::from("^.+$")],
        vec![String::from("uri4")],
        strategy,
    )
}

fn sample_route_5_af() -> Route {
    let upstreams = vec![
        Upstream::build_from_fqdn("upstream20"),
        Upstream::build_from_fqdn("upstream21"),
    ];
    let strategy = UpstreamStrategy::AlwaysFirst { upstreams };
    Route::build(
        String::from("id5"),
        String::from("route5"),
        vec![String::from("GET")],
        vec![String::from("uri")],
        strategy,
    )
}

fn sample_route_6_af() -> Route {
    let upstreams = vec![
        Upstream::build_from_fqdn("upstream21"),
        Upstream::build_from_fqdn("upstream22"),
    ];
    let strategy = UpstreamStrategy::AlwaysFirst { upstreams };
    Route::build(
        String::from("id6"),
        String::from("route6"),
        vec![String::from("GET")],
        vec![String::from("uri2")],
        strategy,
    )
}

fn sample_route_7_af() -> Route {
    let upstream1 = Upstream::build_from_fqdn("upstream20");
    let mut upstream2 = Upstream::build_from_fqdn("upstream21");
    upstream2.enabled = false;
    let upstreams = vec![upstream1, upstream2];
    let strategy = UpstreamStrategy::AlwaysFirst { upstreams };
    Route::build(
        String::from("id7"),
        String::from("route7"),
        vec![String::from("GET")],
        vec![String::from("uri")],
        strategy,
    )
}

fn sample_route_8_af() -> Route {
    let mut upstream1 = Upstream::build_from_fqdn("upstream21");
    upstream1.enabled = false;
    let upstream2 = Upstream::build_from_fqdn("upstream22");
    let upstreams = vec![upstream1, upstream2];
    let strategy = UpstreamStrategy::AlwaysFirst { upstreams };
    Route::build(
        String::from("id8"),
        String::from("route8"),
        vec![String::from("GET")],
        vec![String::from("uri2")],
        strategy,
    )
}

#[test]
fn core_should_perform_upstream_lookup() {
    // given:
    let mut context = Context::build_empty();
    context.add_route(sample_route_1_af()).unwrap();
    context.add_route(sample_route_2_rr()).unwrap();

    // when:
    let upstream = context.upstream_lookup("uri1", "GET").unwrap().unwrap();

    // then:
    assert_eq!("upstream1", upstream.address.to_string().as_str());
}

#[test]
fn core_should_match_route_by_path_regexp() {
    // given:
    let mut context = Context::build_empty();
    context.add_route(sample_route_2_af()).unwrap();
    context.add_route(sample_route_3_af()).unwrap();

    // when:
    let upstream = context.upstream_lookup("uri10", "GET").unwrap().unwrap();

    // then:
    assert_eq!(
        "upstream20".to_string(),
        upstream.address.to_string().as_str()
    );
}

#[test]
fn core_should_match_route_by_method_regexp() {
    // given:
    let mut context = Context::build_empty();
    context.add_route(sample_route_2_af()).unwrap();
    context.add_route(sample_route_4_af()).unwrap();

    // when:
    let upstream = context.upstream_lookup("uri4", "PATCH").unwrap().unwrap();

    // then:
    assert_eq!(
        "upstream10".to_string(),
        upstream.address.to_string().as_str()
    );
}

#[test]
fn core_should_not_find_route_for_non_exact_match() {
    // given:
    let mut context = Context::build_empty();
    context.add_route(sample_route_5_af()).unwrap();

    // when:
    let upstream = context.upstream_lookup("uri5", "GET").unwrap();

    // then:
    assert_eq!(upstream, None)
}

#[test]
fn core_should_not_find_route_if_all_upstreams_are_disabled() {
    // given:
    let mut route = sample_route_1_rr();
    let addresses: Vec<UpstreamAddress> = route
        .get_upstreams()
        .iter()
        .map(|u| u.address.clone())
        .collect();
    for a in addresses.iter() {
        route.strategy.disable_upstream(a);
    }
    let mut context = Context::build_empty();
    context.add_route(route).unwrap();

    // when:
    let upstream = context.upstream_lookup("uri1", "GET").unwrap();

    // then:
    assert_eq!(None, upstream)
}

#[test]
fn core_should_disable_upstream() {
    // given:
    let mut context = Context::build_empty();
    context.add_route(sample_route_5_af()).unwrap();
    context.add_route(sample_route_6_af()).unwrap();
    let ups_addr = UpstreamAddress::FQDN(String::from("upstream21"));

    // when:
    context.disable_upstream_for_all_routes(&ups_addr).unwrap();

    // then:
    for route in context.get_all_routes().unwrap().iter() {
        for u in route.get_upstreams().iter() {
            if u.address == ups_addr {
                assert_eq!(false, u.enabled);
            }
        }
    }
}

#[test]
fn core_should_enable_upstream() {
    // given:
    let mut context = Context::build_empty();
    context.add_route(sample_route_7_af()).unwrap();
    context.add_route(sample_route_8_af()).unwrap();
    let ups_addr = UpstreamAddress::FQDN(String::from("upstream21"));

    // when:
    context.enable_upstream_for_all_routes(&ups_addr).unwrap();

    // then:
    for route in context.get_all_routes().unwrap().iter() {
        for u in route.get_upstreams().iter() {
            if u.address == ups_addr {
                assert_eq!(true, u.enabled);
            }
        }
    }
}

#[test]
fn core_should_add_route() {
    // given:
    let route1 = sample_route_1_af();
    let route2 = sample_route_2_af();
    let mut context = Context::build_empty();

    // when:
    let add_route_result_1 = context.add_route(route1);
    let add_route_result_2 = context.add_route(route2);

    // then:
    assert_eq!(true, add_route_result_1.is_ok());
    assert_eq!(true, add_route_result_2.is_ok());
    assert_eq!(2, context.routes_count());
    assert_eq!(3, context.routing_table_count());
    assert_eq!(2, context.route_index_count());
}

#[test]
fn core_should_not_add_route_if_it_exists() {
    // given:
    let route1 = sample_route_1_af();
    let route2 = route1.clone();
    let mut context = Context::build_empty();
    context.add_route(route1).unwrap();

    // when:
    let add_result = context.add_route(route2);

    // then:
    assert_eq!(true, add_result.is_err());
    assert_eq!(1, context.routes_count());
    assert_eq!(2, context.routing_table_count());
    assert_eq!(1, context.route_index_count());
}

#[test]
fn core_should_remove_route() {
    // given:
    let route1 = sample_route_1_af();
    let route2 = sample_route_2_af();
    let route_id_to_remove = route1.id.clone();
    let mut context = Context::build_empty();
    context.add_route(route1).unwrap();
    context.add_route(route2).unwrap();

    // when:
    let remove_result = context.remove_route(route_id_to_remove.as_str());

    // then:
    assert_eq!(true, remove_result.is_ok());
    assert_eq!(1, context.routes_count());
    assert_eq!(2, context.routing_table_count());
    assert_eq!(1, context.route_index_count());
}

#[test]
fn core_should_not_remove_route_if_not_exists() {
    // given:
    let route1 = sample_route_1_af();
    let route2 = sample_route_2_af();
    let mut context = Context::build_empty();
    context.add_route(route1).unwrap();

    // when:
    let remove_route_result = context.remove_route(route2.id.as_str());

    // then:
    assert_eq!(true, remove_route_result.is_err());
    assert_eq!(1, context.routes_count());
    assert_eq!(1, context.route_index_count());
}

#[test]
fn should_remove_routes_in_reverse_order() {
    // given:
    let route1 = sample_route_1_af();
    let route2 = sample_route_2_af();
    let route_id1_to_remove = route1.id.clone();
    let route_id2_to_remove = route2.id.clone();
    let mut context = Context::build_empty();
    context.add_route(route1).unwrap();
    context.add_route(route2).unwrap();

    // when:
    let remove_result1 = context.remove_route(route_id1_to_remove.as_str());
    let remove_result2 = context.remove_route(route_id2_to_remove.as_str());

    // then:
    assert_eq!(true, remove_result1.is_ok());
    assert_eq!(true, remove_result2.is_ok());
    assert_eq!(0, context.routes_count());
    assert_eq!(0, context.route_index_count());
    assert_eq!(0, context.routing_table_count());
}

#[test]
fn core_should_return_always_first() {
    // given:
    let upstream1 = Upstream::build_from_fqdn("localhost:8080");
    let upstream2 = Upstream::build_from_fqdn("localhost:8081");
    let upstreams = vec![upstream1.clone(), upstream2.clone()];
    let mut strategy = UpstreamStrategy::AlwaysFirst { upstreams };

    // when:
    let first_result = strategy.next().unwrap().clone();
    let second_result = strategy.next().unwrap().clone();

    // then:
    assert_eq!(first_result, upstream1);
    assert_eq!(second_result, upstream1);
}

#[test]
fn core_should_return_round_robin() {
    // given:
    let upstream1 = Upstream::build_from_fqdn("localhost:8080");
    let upstream2 = Upstream::build_from_fqdn("localhost:8081");
    let upstreams = vec![upstream1.clone(), upstream2.clone()];
    let mut strategy = UpstreamStrategy::RoundRobin {
        upstreams,
        next_index: 0,
    };

    // when:
    let first_result = strategy.next().unwrap().clone();
    let second_result = strategy.next().unwrap().clone();
    let third_result = strategy.next().unwrap().clone();
    let fourth_result = strategy.next().unwrap().clone();

    // then:
    assert_eq!(first_result, upstream1);
    assert_eq!(second_result, upstream2);
    assert_eq!(third_result, upstream1);
    assert_eq!(fourth_result, upstream2);
}

#[test]
fn should_return_second_if_first_disabled_af() {
    // given:
    let mut upstream1 = Upstream::build_from_fqdn("localhost:8080");
    let upstream2 = Upstream::build_from_fqdn("localhost:8081");
    upstream1.enabled = false;
    let upstreams = vec![upstream1.clone(), upstream2.clone()];
    let mut strategy = UpstreamStrategy::AlwaysFirst { upstreams };

    // when:
    let result = strategy.next().unwrap().clone();

    // then:
    assert_eq!(result, upstream2);
}

#[test]
fn should_return_none_if_upstreams_disabled_af() {
    // given:
    let mut upstream1 = Upstream::build_from_fqdn("localhost:8080");
    let mut upstream2 = Upstream::build_from_fqdn("localhost:8081");
    upstream1.enabled = false;
    upstream2.enabled = false;
    let upstreams = vec![upstream1, upstream2];
    let mut strategy = UpstreamStrategy::AlwaysFirst { upstreams };

    // when:
    let result = strategy.next();

    // then:
    assert_eq!(result, None);
}

#[test]
fn should_return_none_if_upstreams_disabled_rr() {
    // given:
    let mut upstream1 = Upstream::build_from_fqdn("localhost:8080");
    let mut upstream2 = Upstream::build_from_fqdn("localhost:8081");
    upstream1.enabled = false;
    upstream2.enabled = false;
    let upstreams = vec![upstream1, upstream2];
    let mut strategy = UpstreamStrategy::RoundRobin {
        upstreams,
        next_index: 0,
    };

    // when:
    let result = strategy.next();

    // then:
    assert_eq!(result, None);
}
