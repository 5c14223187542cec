use hapi::poller::Poller;

#[test]
fn probe_should_enable_upstream_if_reached_success_count() {
    // given:
    let mut poller = Poller::build(3, 3);
    poller.upstream_enabled = false; // start with a disabled upstream
    poller.current_success_count = 2;

    // when:
    let result = poller.check_and_enable_upstream();

    // then:
    assert_eq!(true, result);
    assert_eq!(true, poller.upstream_enabled);
    assert_eq!(0, poller.current_error_count);
}

#[test]
fn probe_should_disable_upstream_if_reached_error_count() {
    // given:
    let mut poller = Poller::build(3, 3);
    poller.current_error_count = 2;

    // when:
    let result = poller.check_and_disable_upstream();

    // then:
    assert_eq!(true, result);
    assert_eq!(false, poller.upstream_enabled);
    assert_eq!(0, poller.current_error_count);
}

#[test]
fn probe_should_not_enable_upstream_if_success_count_not_reached() {
    // given:
    let mut poller = Poller::build(3, 3);
    poller.upstream_enabled = false; // start with a disabled upstream

    // when:
    poller.check_and_enable_upstream();
    let result = poller.check_and_enable_upstream();

    // then:
    assert_eq!(false, result);
    assert_eq!(false, poller.upstream_enabled);
    assert_eq!(2, poller.current_success_count);
}

#[test]
fn probe_should_not_disable_upstream_if_error_count_not_reached() {
    // given:
    let mut poller = Poller::build(3, 3);

    // when:
    poller.check_and_disable_upstream();
    let result = poller.check_and_disable_upstream();

    // then:
    assert_eq!(false, result);
    assert_eq!(true, poller.upstream_enabled);
    assert_eq!(2, poller.current_error_count);
}

#[test]
fn upstream_probe_should_enable_upstream_if_reached_success_count() {
    // given:
    let mut poller = Poller::build(3, 3);
    poller.upstream_enabled = false;
    poller.current_success_count = 2;

    // when:
    let result = poller.check_and_enable_upstream();

    // then:
    assert_eq!(true, result);
    assert_eq!(true, poller.upstream_enabled);
    assert_eq!(0, poller.current_error_count);
}

#[test]
fn upstream_probe_should_disable_upstream_if_reached_error_count() {
    // given:
    let mut poller = Poller::build(3, 3);
    poller.current_error_count = 2;

    // when:
    let result = poller.check_and_disable_upstream();

    // then:
    assert_eq!(true, result);
    assert_eq!(false, poller.upstream_enabled);
    assert_eq!(0, poller.current_error_count);
}

#[test]
fn upstream_probe_should_not_enable_upstream_if_success_count_not_reached() {
    // given:
    let mut poller = Poller::build(3, 3);
    poller.upstream_enabled = false;

    // when:
    poller.check_and_enable_upstream();
    let result = poller.check_and_enable_upstream();

    // then:
    assert_eq!(false, result);
    assert_eq!(false, poller.upstream_enabled);
    assert_eq!(2, poller.current_success_count);
}

#[test]
fn upstream_probe_should_not_disable_upstream_if_error_count_not_reached() {
    // given:
    let mut poller = Poller::build(3, 3);

    // when:
    poller.check_and_disable_upstream();
    let result = poller.check_and_disable_upstream();

    // then:
    assert_eq!(false, result);
    assert_eq!(true, poller.upstream_enabled);
    assert_eq!(2, poller.current_error_count);
}
