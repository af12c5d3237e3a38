use vpp_plugin::vlib::process_node::tw_timer::TimerWheel;

#[test]
fn process_timer_becomes_ready() {
    let mut wheel = TimerWheel::new();
    assert_eq!(wheel.next_expiration(), None);
    let handle = wheel.start_timer(5);
    assert!(!wheel.state(handle).unwrap().is_ready);
    assert_eq!(wheel.next_expiration(), Some(5));
    wheel.expire_timers(4);
    assert!(!wheel.state(handle).unwrap().is_ready);
    assert_eq!(wheel.next_expiration(), Some(1));
    wheel.expire_timers(5);
    assert!(wheel.state(handle).unwrap().is_ready);
    assert!(wheel.state(handle).unwrap().wheel_handle.is_none());
    assert_eq!(wheel.next_expiration(), None);
    wheel.stop_timer(handle);
    assert!(wheel.state(handle).is_none());
}

#[test]
fn process_timer_in_the_past_is_ready_at_once() {
    let mut wheel = TimerWheel::new();
    wheel.expire_timers(10);
    let handle = wheel.start_timer(3);
    assert!(wheel.state(handle).unwrap().is_ready);
    assert_eq!(wheel.next_expiration(), None);
}

#[test]
fn process_timer_stopped_never_fires() {
    let mut wheel = TimerWheel::new();
    let first = wheel.start_timer(2);
    let second = wheel.start_timer(3);
    wheel.stop_timer(first);
    assert_eq!(wheel.next_expiration(), Some(3));
    wheel.expire_timers(3);
    assert!(wheel.state(first).is_none());
    assert!(wheel.state(second).unwrap().is_ready);
}

#[test]
fn far_process_timer_is_ready_exactly_on_time() {
    let mut wheel = TimerWheel::new();
    wheel.expire_timers(1000);
    let handle = wheel.start_timer(1000 + 5000);
    assert_eq!(wheel.next_expiration(), Some(5000));
    wheel.expire_timers(5999);
    assert!(!wheel.state(handle).unwrap().is_ready);
    assert_eq!(wheel.next_expiration(), Some(1));
    wheel.expire_timers(6000);
    assert!(wheel.state(handle).unwrap().is_ready);
}
