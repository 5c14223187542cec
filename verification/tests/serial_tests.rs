use hapi::route::Route;
use hapi::serial;
use hapi::serial::parse_ipv4;
use hapi::upstream::{Upstream, UpstreamStrategy};

fn sample_route() -> Route {
    Route::build(
        String::from("id1"),
        String::from("route1"),
        vec![String::from("GET")],
        vec![String::from("uri1"), String::from("uri2")],
        UpstreamStrategy::AlwaysFirst {
            upstreams: vec![
                Upstream::build_from_fqdn("upstream1"),
                Upstream::build_from_fqdn("upstream2"),
            ],
        },
    )
}

fn sample_route_ipv4() -> Route {
    Route::build(
        String::from("id1"),
        String::from("route1"),
        vec![String::from("GET")],
        vec![String::from("uri1"), String::from("uri2")],
        UpstreamStrategy::AlwaysFirst {
            upstreams: vec![
                Upstream::build_from_ipv4((192, 168, 0, 100, 80)),
                Upstream::build_from_ipv4((192, 168, 0, 101, 8080)),
            ],
        },
    )
}

fn sample_serializable_route() -> serial::Route {
    serial::Route {
        id: String::from("id1"),
        name: String::from("route1"),
        methods: vec![String::from("GET")],
        paths: vec![String::from("uri1"), String::from("uri2")],
        upstreams: vec![String::from("upstream1"), String::from("upstream2")],
        strategy: serial::Strategy::AlwaysFirst,
    }
}

fn sample_serializable_route_ipv4() -> serial::Route {
    serial::Route {
        id: String::from("id1"),
        name: String::from("route1"),
        methods: vec![String::from("GET")],
        paths: vec![String::from("uri1"), String::from("uri2")],
        upstreams: vec![
            String::from("192.168.0.100"),
            String::from("192.168.0.101:8080"),
        ],
        strategy: serial::Strategy::AlwaysFirst,
    }
}

#[test]
fn should_convert_route_to_serializable_route() {
    // given:
    let route = sample_route();

    // when:
    let serializable_route = serial::Route::from_model(&route);

    // then:
    assert_eq!(serializable_route, sample_serializable_route())
}

#[test]
fn should_convert_serializable_route_to_route() {
    // given:
    let serializable_route = sample_serializable_route();

    // when:
    let route: Route = serializable_route.into_model();

    // then:
    assert_eq!(route, sample_route())
}

#[test]
fn should_convert_serializable_ipv4_route_to_route() {
    // given:
    let serializable_route = sample_serializable_route_ipv4();

    // when:
    let route: Route = serializable_route.into_model();

    // then:
    assert_eq!(route, sample_route_ipv4())
}

#[test]
fn should_convert_upstream_str_to_tuple_ip_only() {
    // given:
    let upstream = "192.168.0.100";

    // when:
    let result = parse_ipv4(upstream).unwrap();

    // then:
    assert_eq!(result, (192, 168, 0, 100, 80))
}

#[test]
fn should_convert_upstream_str_to_tuple_ip_and_port() {
    // given:
    let upstream = "192.168.0.100:8080";

    // when:
    let result = parse_ipv4(upstream).unwrap();

    // then:
    assert_eq!(result, (192, 168, 0, 100, 8080))
}
