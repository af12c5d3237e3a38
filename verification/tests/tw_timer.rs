use vpp_plugin::vppinfra::tw_timer::{StartTimerError, TimerWheel};

#[test]
fn test_immediate_timer() {
    let mut wheel: TimerWheel<u8, 4, 256> = Default::default();
    let e = wheel.start_timer_absolute(0, 1).expect_err("add timer");
    assert!(
        matches!(e, StartTimerError::Expired(1)),
        "{:?} != AddTimerError::Expired",
        e
    );
}

#[test]
fn test_future_timer() {
    let mut wheel: TimerWheel<u8, 4, 256> = Default::default();
    wheel.start_timer_absolute(5, 1).expect("add timer");
    let contexts = wheel.expire_timers(4);
    assert_eq!(contexts, []);
    let contexts = wheel.expire_timers(1);
    assert_eq!(contexts, [1]);
}

#[test]
fn test_multiple_timers() {
    let mut wheel: TimerWheel<u8, 4, 256> = Default::default();
    wheel.start_timer_absolute(1, 1).expect("add timer");
    wheel.start_timer(2, 2);
    wheel.start_timer_absolute(3, 3).expect("add timer");
    let contexts = wheel.expire_timers(1);
    assert_eq!(contexts, [1]);
    let contexts = wheel.expire_timers(2);
    assert_eq!(contexts, [2, 3]);
}

#[test]
fn test_level_1() {
    let mut wheel: TimerWheel<u8, 4, 256> = Default::default();
    // Add a timer that will be placed in level 1 (delta = 257 > 256)
    wheel.start_timer(257, 1);
    // Advance 256 ticks: this should trigger cascade and re-insert the timer
    let contexts = wheel.expire_timers(256);
    assert_eq!(contexts, []);
    // Advance one more tick to expire the re-inserted timer
    let contexts = wheel.expire_timers(1);
    assert_eq!(contexts, [1]);
}

#[test]
fn test_next_expiration() {
    let mut wheel: TimerWheel<u8, 4, 256> = Default::default();
    assert_eq!(wheel.next_expiration(), None);
    wheel.start_timer(5, 1);
    assert_eq!(wheel.next_expiration(), Some(5));
    wheel.start_timer_absolute(3, 2).expect("add timer");
    assert_eq!(wheel.next_expiration(), Some(3));
    wheel.start_timer(10, 3);
    assert_eq!(wheel.next_expiration(), Some(3));
    let contexts = wheel.expire_timers(3); // expire at 3
    assert_eq!(contexts, [2]);
    assert_eq!(wheel.next_expiration(), Some(5));
}

#[test]
fn test_stop_timers() {
    let mut wheel: TimerWheel<u8, 4, 256> = Default::default();
    let timer1 = wheel.start_timer(5, 1);
    let timer2 = wheel.start_timer_absolute(3, 2).expect("add timer");
    let timer3 = wheel.start_timer_absolute(5, 3).expect("add timer");
    // Stop a timer that isn't the head of the list
    assert_eq!(wheel.stop_timer(timer1), Some(1));
    let contexts = wheel.expire_timers(3);
    assert_eq!(contexts, [2]);
    // Stop an already-expired timer
    assert_eq!(wheel.stop_timer(timer2), None);
    // Stop a timer that is head of the list
    assert_eq!(wheel.stop_timer(timer3), Some(3));
    // Advance 2 more ticks and don't expect any of the timers to fire
    let contexts = wheel.expire_timers(2);
    assert_eq!(contexts, []);
}

#[test]
fn test_timer_far_in_future() {
    let mut wheel: TimerWheel<u8, 2, 4> = Default::default();
    // The maximum ticks represented by the slots is 4^2, so 17 is beyond that - we still
    // expect it to expire at the correct time.
    let timer1 = wheel.start_timer_absolute(17, 1).expect("add timer");
    let contexts = wheel.expire_timers(16);
    assert_eq!(contexts, []);
    assert_eq!(wheel.stop_timer(timer1), Some(1));
    // Add two, both far in the future, and expect them to expire at the correct time as well
    // as the next expiration time to take the lower of the two.
    wheel.start_timer(18, 2);
    wheel.start_timer(17, 1);
    assert_eq!(wheel.next_expiration(), Some(16 + 17));
    let contexts = wheel.expire_timers(17);
    assert_eq!(contexts, [1]);
}

#[test]
fn start_then_stop_gives_back_context() {
    let mut wheel: TimerWheel<u32, 3, 8> = TimerWheel::new();
    let handle = wheel.start_timer(100, 7);
    assert_eq!(wheel.next_expiration(), Some(100));
    assert_eq!(wheel.stop_timer(handle), Some(7));
    assert_eq!(wheel.next_expiration(), None);
    assert_eq!(wheel.expire_timers(200), Vec::<u32>::new());
}

#[test]
fn short_timers_fire_on_their_tick() {
    let mut wheel: TimerWheel<u32, 2, 8> = TimerWheel::new();
    wheel.expire_timers(5);
    for interval in 1..8u64 {
        wheel.start_timer(interval, interval as u32);
    }
    for interval in 1..8u32 {
        assert_eq!(wheel.expire_timers(1), vec![interval]);
    }
    assert_eq!(wheel.next_expiration(), None);
}

#[test]
fn saturating_interval_is_far_future() {
    let mut wheel: TimerWheel<u8, 2, 4> = TimerWheel::new();
    wheel.expire_timers(3);
    // The expiry time saturates at u64::MAX; the timer goes to the last slot of the last level
    let handle = wheel.start_timer(u64::MAX, 9);
    assert_eq!(wheel.next_expiration(), Some(u64::MAX));
    assert_eq!(wheel.expire_timers(40), Vec::<u8>::new());
    assert_eq!(wheel.stop_timer(handle), Some(9));
}

#[test]
fn zero_interval_timer_fires_at_next_tick() {
    let mut wheel: TimerWheel<u8, 1, 4> = TimerWheel::new();
    wheel.expire_timers(1);
    wheel.start_timer(0, 1);
    assert_eq!(wheel.expire_timers(1), vec![1]);

    let mut wheel: TimerWheel<u8, 2, 4> = TimerWheel::new();
    wheel.expire_timers(1);
    wheel.start_timer(0, 2);
    assert_eq!(wheel.expire_timers(1), vec![2]);
}

#[test]
fn cascaded_timer_fires_at_its_expiry() {
    let mut wheel: TimerWheel<u8, 2, 4> = TimerWheel::new();
    wheel.expire_timers(3);
    // Expires at 8
    wheel.start_timer(5, 1);
    assert_eq!(wheel.expire_timers(4), Vec::<u8>::new());
    assert_eq!(wheel.expire_timers(1), vec![1]);

    let mut wheel: TimerWheel<u8, 2, 4> = TimerWheel::new();
    assert!(wheel.expire_timers(3).is_empty());
    // Expires at 10
    wheel.start_timer(7, 1);
    assert_eq!(wheel.expire_timers(6), Vec::<u8>::new());
    assert_eq!(wheel.expire_timers(1), vec![1]);
}

#[test]
fn every_timer_fires_at_its_due_tick() {
    for start in 0u64..40 {
        for interval in 0u64..70 {
            let mut wheel: TimerWheel<u64, 2, 4> = TimerWheel::new();
            assert!(wheel.expire_timers(start).is_empty());
            wheel.start_timer(interval, interval);
            let due = if interval == 0 { 1 } else { interval };
            for tick in 1..due {
                assert!(
                    wheel.expire_timers(1).is_empty(),
                    "start {} interval {} fired early at tick {}",
                    start,
                    interval,
                    tick
                );
            }
            assert_eq!(wheel.expire_timers(1), vec![interval], "start {} interval {}", start, interval);
            assert_eq!(wheel.next_expiration(), None);
        }
    }
}

#[test]
fn next_expiration_is_the_earliest_timer() {
    let mut wheel: TimerWheel<u8, 2, 4> = TimerWheel::new();
    wheel.start_timer(4, 1);
    assert!(wheel.expire_timers(2).is_empty());
    wheel.start_timer(3, 2);
    assert_eq!(wheel.next_expiration(), Some(4));
    assert_eq!(wheel.expire_timers(2), vec![1]);
    assert_eq!(wheel.next_expiration(), Some(5));
    assert_eq!(wheel.expire_timers(1), vec![2]);
    assert_eq!(wheel.next_expiration(), None);
}

#[test]
fn wheel_whose_range_exceeds_u64_fires_on_time() {
    // 65536^4 is beyond u64::MAX
    let mut wheel: TimerWheel<u8, 4, 65536> = TimerWheel::new();
    wheel.start_timer(10, 1);
    wheel.start_timer(70000, 2);
    let far = wheel.start_timer(u64::MAX, 3);
    assert_eq!(wheel.next_expiration(), Some(10));
    assert_eq!(wheel.expire_timers(9), Vec::<u8>::new());
    assert_eq!(wheel.expire_timers(1), vec![1]);
    assert_eq!(wheel.expire_timers(69989), Vec::<u8>::new());
    assert_eq!(wheel.expire_timers(1), vec![2]);
    assert_eq!(wheel.next_expiration(), Some(u64::MAX));
    assert_eq!(wheel.stop_timer(far), Some(3));
}

#[test]
fn expiring_in_two_calls_is_expiring_in_one() {
    let build = || {
        let mut wheel: TimerWheel<u32, 2, 4> = TimerWheel::new();
        for i in 0..30u32 {
            wheel.start_timer((i as u64 * 7) % 40, i);
        }
        wheel
    };
    for a in 0..45u64 {
        let mut w1 = build();
        let mut w2 = build();
        let mut r = w1.expire_timers(a);
        r.extend(w1.expire_timers(45 - a));
        assert_eq!(r, w2.expire_timers(45));
        assert_eq!(w1.next_expiration(), w2.next_expiration());
    }
    let mut w = build();
    assert_eq!(w.expire_timers(0), Vec::<u32>::new());
    assert_eq!(w.next_expiration(), Some(0));
}
