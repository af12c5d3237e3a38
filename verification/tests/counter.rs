use vpp_plugin::vlib::counter::{
    CombinedCount, CombinedCounter, CombinedCounterIndex, SimpleCounter, SimpleCounterIndex,
};

#[test]
fn simple_counter_increment_and_zero() {
    let mut counter = SimpleCounter::new("ut-simple", "/net/ut/simple");
    let counter_index = counter.allocate_index(2, 0);
    let index = counter_index.into_parts();
    let counter_index = SimpleCounterIndex::from_parts(&counter, index);
    counter_index.increment(&mut counter, 0, 1);
    assert_eq!(counter_index.get(&counter), 1);
    counter_index.increment(&mut counter, 1, 41);
    assert_eq!(counter_index.get(&counter), 42);
    counter_index.zero(&mut counter);
    assert_eq!(counter_index.get(&counter), 0);
}

#[test]
fn simple_counter_indices_are_separate() {
    let mut counter = SimpleCounter::new("test-simple", "/net/test/simple");
    let first = counter.allocate_index(1, 0);
    let third = counter.allocate_index(1, 2);
    first.increment(&mut counter, 0, 5);
    third.increment(&mut counter, 0, 7);
    assert_eq!(first.get(&counter), 5);
    assert_eq!(third.get(&counter), 7);
    // Allocating an index again zeroes it
    let first = counter.allocate_index(1, 0);
    assert_eq!(first.get(&counter), 0);
    assert_eq!(third.get(&counter), 7);
}

#[test]
fn combined_counter_increment_and_zero() {
    let mut counter = CombinedCounter::new("ut-combined", "/net/ut/combined");
    let counter_index = counter.allocate_index(1, 0);
    let index = counter_index.into_parts();
    let counter_index = CombinedCounterIndex::from_parts(&counter, index);
    // Increment by 1 packet and 64 bytes
    counter_index.increment(&mut counter, 0, 1, 64);
    let counter_val = counter_index.get(&counter);
    assert_eq!(counter_val, CombinedCount { packets: 1, bytes: 64 });
    counter_index.zero(&mut counter);
    let counter_val = counter_index.get(&counter);
    assert_eq!(counter_val.packets, 0);
    assert_eq!(counter_val.bytes, 0);
}

#[test]
fn combined_counter_sums_threads() {
    let mut counter = CombinedCounter::new("test-combined", "/net/test/combined");
    let counter_index = counter.allocate_index(3, 1);
    counter_index.increment(&mut counter, 0, 1, 100);
    counter_index.increment(&mut counter, 2, 2, 1500);
    assert_eq!(
        counter_index.get(&counter),
        CombinedCount { packets: 3, bytes: 1600 }
    );
}

#[test]
fn reallocating_an_index_zeroes_it_and_keeps_the_others() {
    let mut counter = SimpleCounter::new("ut-simple", "/net/ut/simple");
    let first = counter.allocate_index(2, 0);
    let second = counter.allocate_index(2, 3);
    first.increment(&mut counter, 0, 5);
    second.increment(&mut counter, 1, 7);
    let second = counter.allocate_index(3, 3);
    assert_eq!(second.get(&counter), 0);
    let first = SimpleCounterIndex::from_parts(&counter, 0);
    assert_eq!(first.get(&counter), 5);
}
