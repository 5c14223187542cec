use hapi::route::Route;
use hapi::upstream::{Upstream, UpstreamAddress, UpstreamStrategy};

fn sample_route() -> Route {
    let upstream1 = Upstream::build_from_fqdn("upstream1");
    let mut upstream2 = Upstream::build_from_fqdn("upstream2");
    upstream2.disable();
    let upstream3 = Upstream::build_from_fqdn("upstream3");
    let strategy = UpstreamStrategy::RoundRobin {
        upstreams: vec![upstream1, upstream2, upstream3],
        next_index: 0,
    };

    Route::build(
        String::from("id1"),
        String::from("route1"),
        vec![String::from("GET")],
        vec![String::from("uri1"), String::from("uri2")],
        strategy,
    )
}

fn get_upstream_by_address(route: &Route, address: &UpstreamAddress) -> Option<Upstream> {
    for u in route.get_upstreams().iter() {
        if u.address == *address {
            return Some(u.clone());
        }
    }
    return None;
}

#[test]
fn route_should_enable_upstream() {
    // given:
    let mut route = sample_route();
    let ups_addr = UpstreamAddress::FQDN(String::from("upstream2"));

    // when:
    route.enable_upstream(&ups_addr);

    // then:
    let u = get_upstream_by_address(&route, &ups_addr).unwrap();
    assert_eq!(true, u.enabled)
}

#[test]
fn route_should_disable_upstream() {
    // given:
    let mut route = sample_route();
    let ups_addr = UpstreamAddress::FQDN(String::from("upstream1"));

    // when:
    route.disable_upstream(&ups_addr);

    // then:
    let u = get_upstream_by_address(&route, &ups_addr).unwrap();
    assert_eq!(false, u.enabled)
}

#[test]
fn should_return_next_available_upstream() {
    // given:
    let mut route = sample_route();

    // when:
    let upstream1 = route.next_available_upstream().unwrap().clone();
    let upstream2 = route.next_available_upstream().unwrap().clone();
    let upstream3 = route.next_available_upstream().unwrap().clone();
    let upstream4 = route.next_available_upstream().unwrap().clone();

    // then:
    assert_eq!(String::from("upstream1"), upstream1.address.to_string());
    assert_eq!(String::from("upstream3"), upstream2.address.to_string());
    assert_eq!(String::from("upstream1"), upstream3.address.to_string());
    assert_eq!(String::from("upstream3"), upstream4.address.to_string());
}
