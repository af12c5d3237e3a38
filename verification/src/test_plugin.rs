//! The decisions of the test plugin that exercises the library: how its nodes dispatch UDP
//! packets, its UDP source port deny policy, and its counter self-test.

use vstd::prelude::*;
use crate::vlib::counter::{
    CombinedCount, CombinedCounter, CombinedCounterIndex, SimpleCounter, SimpleCounterIndex,
    packets_of, bytes_of, lemma_zero_total, lemma_increment_total, lemma_allocate_and_zero_clear,
};
use crate::vlib::main::sync::BarrierRwLock;
use crate::vlibapi::num_unaligned::{UnalignedU16, be_u16};

verus! {

/// The size of the IPv4 and UDP headers that the test nodes look at
pub const IP_UDP_HEADER_SIZE: u16 = 28;

/// The source port that the deny policy drops when it is enabled
pub const DENIED_UDP_SRC_PORT: u16 = 7;

/// What a test node does with a packet
#[derive(Copy, Clone, Debug, PartialEq, Eq, Structural)]
pub enum TestAction {
    /// Continue to the next feature on the arc
    NextFeature,
    /// Drop, with the buffer's error set to the drop error
    DropWithError,
    /// Drop, incrementing the node's drop error counter
    DropCountingError,
    /// Drop, incrementing the node's drop error counter through the cached counter pointer
    DropCountingCachedError,
    /// Increment the simple test counter and continue to the next feature
    CountSimple,
    /// Increment the combined test counter and continue to the next feature
    CountCombined,
}

/// What the single-buffer test node does with a packet of `current_length` bytes whose UDP
/// ports, in network byte order, are `src_port_be` and `dst_port_be`
pub open spec fn spec_test_node_action(
    current_length: u16,
    src_port_be: u16,
    dst_port_be: u16,
    deny_policy: Option<u16>,
) -> TestAction {
    if current_length < IP_UDP_HEADER_SIZE {
        TestAction::DropWithError
    } else {
        let dst_port = be_u16(dst_port_be);
        if dst_port == 2 {
            TestAction::NextFeature
        } else if dst_port == 3 {
            TestAction::DropCountingError
        } else if dst_port == 4 {
            TestAction::DropCountingCachedError
        } else if dst_port == 5 {
            TestAction::CountSimple
        } else if dst_port == 6 {
            TestAction::CountCombined
        } else if dst_port == 7 {
            match deny_policy {
                Some(denied) => if be_u16(src_port_be) == denied {
                    TestAction::DropWithError
                } else {
                    TestAction::NextFeature
                },
                None => TestAction::NextFeature,
            }
        } else {
            TestAction::DropWithError
        }
    }
}

/// What the four-buffer test node does with a packet
pub open spec fn spec_test_x4_node_action(current_length: u16, dst_port_be: u16) -> TestAction {
    if current_length < IP_UDP_HEADER_SIZE || be_u16(dst_port_be) == 1 {
        TestAction::DropWithError
    } else {
        TestAction::NextFeature
    }
}

/// Law: what the single-buffer test node does with a packet. A packet too short for its IPv4
/// and UDP headers is dropped with an error. Otherwise the UDP destination port (in host
/// order) decides: 2 continues, 3 to 6 drop counting an error or count and continue, 7
/// continues unless the deny policy names the source port (then the packet is dropped with an
/// error), and every other port drops with an error. Only destination port 7 looks at the
/// source port and the deny policy.
pub proof fn lemma_test_node_dispatch(
    current_length: u16,
    src_port_be: u16,
    other_src_port_be: u16,
    dst_port_be: u16,
    deny_policy: Option<u16>,
)
    ensures
        ({
            let action = spec_test_node_action(current_length, src_port_be, dst_port_be, deny_policy);
            let dst = be_u16(dst_port_be);
            &&& current_length < IP_UDP_HEADER_SIZE ==> action == TestAction::DropWithError
            &&& current_length >= IP_UDP_HEADER_SIZE ==> {
                &&& dst == 2 ==> action == TestAction::NextFeature
                &&& dst == 3 ==> action == TestAction::DropCountingError
                &&& dst == 4 ==> action == TestAction::DropCountingCachedError
                &&& dst == 5 ==> action == TestAction::CountSimple
                &&& dst == 6 ==> action == TestAction::CountCombined
                &&& dst == 7 ==> (action == TestAction::DropWithError <==> deny_policy == Some(
                    be_u16(src_port_be),
                ))
                &&& dst == 7 ==> (action == TestAction::DropWithError || action
                    == TestAction::NextFeature)
                &&& (dst < 2 || dst > 7) ==> action == TestAction::DropWithError
                &&& dst != 7 ==> action == spec_test_node_action(
                    current_length,
                    other_src_port_be,
                    dst_port_be,
                    None,
                )
            }
        }),
{
}

/// Law: the four-buffer test node drops a packet with an error when it is too short for its
/// IPv4 and UDP headers or its UDP destination port (in host order) is 1, and otherwise
/// continues
pub proof fn lemma_test_x4_node_dispatch(current_length: u16, dst_port_be: u16)
    ensures
        spec_test_x4_node_action(current_length, dst_port_be) == TestAction::DropWithError <==> (
        current_length < IP_UDP_HEADER_SIZE || be_u16(dst_port_be) == 1),
        spec_test_x4_node_action(current_length, dst_port_be) == TestAction::DropWithError || spec_test_x4_node_action(current_length, dst_port_be) == TestAction::NextFeature,
{
}

/// The single-buffer test node's decision for one packet, reading the deny policy under a
/// read guard taken on thread `thread_index`
pub fn test_node_action(
    current_length: u16,
    src_port_be: u16,
    dst_port_be: u16,
    deny_policy: &mut BarrierRwLock<Option<u16>>,
    thread_index: u32,
) -> (action: TestAction)
    requires
        old(deny_policy).state().can_read(thread_index),
    ensures
        action == spec_test_node_action(
            current_length,
            src_port_be,
            dst_port_be,
            old(deny_policy).value(),
        ),
        final(deny_policy).state() == old(deny_policy).state(),
        final(deny_policy).value() == old(deny_policy).value(),
{
    if current_length < IP_UDP_HEADER_SIZE {
        return TestAction::DropWithError;
    }
    let dst_port = UnalignedU16::from_be(UnalignedU16::new(dst_port_be)).get();
    match dst_port {
        // 1 falls through into default case to test the simple case
        2 => TestAction::NextFeature,
        3 => TestAction::DropCountingError,
        4 => TestAction::DropCountingCachedError,
        5 => TestAction::CountSimple,
        6 => TestAction::CountCombined,
        7 => {
            let guard = deny_policy.read(thread_index);
            let policy = *deny_policy.data();
            deny_policy.read_unlock(guard);
            match policy {
                Some(src_port) => {
                    if UnalignedU16::from_be(UnalignedU16::new(src_port_be)).get() == src_port {
                        TestAction::DropWithError
                    } else {
                        TestAction::NextFeature
                    }
                },
                None => TestAction::NextFeature,
            }
        },
        _ => TestAction::DropWithError,
    }
}

/// The four-buffer test node's decision for one packet
pub fn test_x4_node_action(current_length: u16, dst_port_be: u16) -> (action: TestAction)
    ensures
        action == spec_test_x4_node_action(current_length, dst_port_be),
{
    if current_length < IP_UDP_HEADER_SIZE {
        return TestAction::DropWithError;
    }
    if UnalignedU16::from_be(UnalignedU16::new(dst_port_be)).get() == 1 {
        TestAction::DropWithError
    } else {
        TestAction::NextFeature
    }
}

/// The four-buffer test node's decisions for four packets, given as their current lengths
/// and destination ports in network byte order
pub fn test_x4_node_actions(current_lengths: [u16; 4], dst_ports_be: [u16; 4]) -> (actions: [TestAction; 4])
    ensures
        forall|i: int| 0 <= i < 4 ==> #[trigger] actions@[i] == spec_test_x4_node_action(
            current_lengths@[i],
            dst_ports_be@[i],
        ),
{
    let actions = [
        test_x4_node_action(current_lengths[0], dst_ports_be[0]),
        test_x4_node_action(current_lengths[1], dst_ports_be[1]),
        test_x4_node_action(current_lengths[2], dst_ports_be[2]),
        test_x4_node_action(current_lengths[3], dst_ports_be[3]),
    ];
    assert forall|i: int| 0 <= i < 4 implies #[trigger] actions@[i] == spec_test_x4_node_action(
        current_lengths@[i],
        dst_ports_be@[i],
    ) by {
        if i == 0 {
        } else if i == 1 {
        } else if i == 2 {
        } else {
        }
    }
    actions
}

/// Enables or disables dropping packets from the denied UDP source port, under the write guard
pub fn set_deny_policy(deny_policy: &mut BarrierRwLock<Option<u16>>, enable: bool)
    requires
        old(deny_policy).state().can_write(),
    ensures
        final(deny_policy).value() == (if enable {
            Some(DENIED_UDP_SRC_PORT)
        } else {
            None
        }),
        final(deny_policy).state() == old(deny_policy).state(),
{
    let guard = deny_policy.write();
    *deny_policy.get_mut() = if enable {
        Some(DENIED_UDP_SRC_PORT)
    } else {
        None
    };
    deny_policy.write_unlock(guard);
}

/// Which counter the counter self-test exercises
#[derive(Copy, Clone, Debug, PartialEq, Eq, Structural)]
pub enum CounterTestKind {
    /// A simple counter
    Simple,
    /// A combined packets and bytes counter
    Combined,
}

/// A counter self-test failure: the count found
#[derive(Copy, Clone, Debug, PartialEq, Eq, Structural)]
pub enum CounterTestError {
    /// The simple count differed from the one expected
    UnexpectedSimple {
        /// The count expected
        expected: u64,
        /// The count found
        found: u64,
    },
    /// The combined count differed from the one expected
    UnexpectedCombined {
        /// The count expected
        expected: CombinedCount,
        /// The count found
        found: CombinedCount,
    },
}

/// The counter self-test: allocates object 0 of a new counter on `n_threads` threads, takes its
/// index apart and back together, increments it on the main thread (by 1, or by 1 packet and
/// 64 bytes), checks the total, zeroes it and checks the total again
pub fn counter_test(kind: CounterTestKind, n_threads: u32) -> (r: Result<(), CounterTestError>)
    requires
        n_threads >= 1,
    ensures
        r is Ok,
{
    match kind {
        CounterTestKind::Simple => {
            proof {
                reveal_strlit("ut-simple");
                reveal_strlit("/net/ut/simple");
            }
            let mut counter = SimpleCounter::new("ut-simple", "/net/ut/simple");
            let counter_index = counter.allocate_index(n_threads, 0);
            let index = counter_index.into_parts();
            proof {
                lemma_allocate_and_zero_clear(Seq::<Seq<u64>>::empty(), n_threads as int, 0, 0u64);
            }
            let counter_index = SimpleCounterIndex::from_parts(&counter, index);
            let ghost before = counter.counts();
            counter_index.increment(&mut counter, 0, 1);
            proof {
                lemma_zero_total(before, 0, before.len() as int);
                lemma_increment_total(before, 0, 0, 1, before.len() as int);
            }
            let counter_val = counter_index.get(&counter);
            if counter_val != 1 {
                return Err(CounterTestError::UnexpectedSimple { expected: 1, found: counter_val });
            }
            counter_index.zero(&mut counter);
            proof {
                lemma_zero_total(counter.counts(), 0, counter.counts().len() as int);
            }
            let counter_val = counter_index.get(&counter);
            if counter_val != 0 {
                return Err(CounterTestError::UnexpectedSimple { expected: 0, found: counter_val });
            }
        },
        CounterTestKind::Combined => {
            proof {
                reveal_strlit("ut-combined");
                reveal_strlit("/net/ut/combined");
            }
            let mut counter = CombinedCounter::new("ut-combined", "/net/ut/combined");
            let counter_index = counter.allocate_index(n_threads, 0);
            let index = counter_index.into_parts();
            let ghost zero = CombinedCount { packets: 0, bytes: 0 };
            proof {
                lemma_allocate_and_zero_clear(Seq::<Seq<CombinedCount>>::empty(), n_threads as int, 0, zero);
            }
            let counter_index = CombinedCounterIndex::from_parts(&counter, index);
            let ghost before = counter.counts();
            // Increment by 1 packet and 64 bytes
            counter_index.increment(&mut counter, 0, 1, 64);
            proof {
                let after = counter.counts();
                lemma_zero_total(packets_of(before), 0, before.len() as int);
                lemma_zero_total(bytes_of(before), 0, before.len() as int);
                lemma_increment_total(packets_of(before), 0, 0, 1, before.len() as int);
                lemma_increment_total(bytes_of(before), 0, 0, 64, before.len() as int);
                assert(packets_of(after)[0] =~= packets_of(before)[0].update(0, 1u64));
                assert(bytes_of(after)[0] =~= bytes_of(before)[0].update(0, 64u64));
                assert forall|t: int| 0 < t < after.len() implies packets_of(after)[t] =~= packets_of(before)[t] by {}
                assert forall|t: int| 0 < t < after.len() implies bytes_of(after)[t] =~= bytes_of(before)[t] by {}
                assert(packets_of(after) =~= packets_of(before).update(0, packets_of(before)[0].update(0, 1u64)));
                assert(bytes_of(after) =~= bytes_of(before).update(0, bytes_of(before)[0].update(0, 64u64)));
            }
            let counter_val = counter_index.get(&counter);
            if counter_val.packets != 1 || counter_val.bytes != 64 {
                return Err(
                    CounterTestError::UnexpectedCombined {
                        expected: CombinedCount { packets: 1, bytes: 64 },
                        found: counter_val,
                    },
                );
            }
            counter_index.zero(&mut counter);
            proof {
                lemma_zero_total(packets_of(counter.counts()), 0, counter.counts().len() as int);
                lemma_zero_total(bytes_of(counter.counts()), 0, counter.counts().len() as int);
            }
            let counter_val = counter_index.get(&counter);
            if counter_val.packets != 0 || counter_val.bytes != 0 {
                return Err(
                    CounterTestError::UnexpectedCombined {
                        expected: CombinedCount { packets: 0, bytes: 0 },
                        found: counter_val,
                    },
                );
            }
        },
    }
    Ok(())
}

/// The end of the space-separated field of `s` that starts at `from`: the index of the first
/// space at or after `from`, or the length of `s` where there is none
pub open spec fn field_end(s: Seq<char>, from: int) -> int
    decreases s.len() - from,
{
    if from >= s.len() {
        s.len() as int
    } else if s[from] == ' ' {
        from
    } else {
        field_end(s, from + 1)
    }
}

/// Law: the field that starts at `from` ends at the first space at or after `from`: it holds no
/// space, and what follows it is a space or the end of `s`
pub proof fn lemma_field_end(s: Seq<char>, from: int)
    requires
        0 <= from <= s.len(),
    ensures
        from <= field_end(s, from) <= s.len(),
        forall|k: int| from <= k < field_end(s, from) ==> s[k] != ' ',
        field_end(s, from) < s.len() ==> s[field_end(s, from)] == ' ',
    decreases s.len() - from,
{
    if from < s.len() && s[from] != ' ' {
        lemma_field_end(s, from + 1);
    }
}

/// The index of the first space at or after `from` in `s`, whose length in characters is `len`
fn find_field_end(s: &str, len: usize, from: usize) -> (end: usize)
    requires
        len == s@.len(),
        from <= len,
    ensures
        end == field_end(s@, from as int),
        from <= end <= len,
{
    let mut i = from;
    while i < len
        invariant
            from <= i <= len,
            len == s@.len(),
            field_end(s@, i as int) == field_end(s@, from as int),
        decreases len - i,
    {
        if s.get_char(i) == ' ' {
            return i;
        }
        i = i + 1;
    }
    i
}

/// The interface name and the option given to the command that enables or disables the test
/// feature: the first space-separated field of `input`, and the second where `input` holds a
/// space
pub fn split_enable_disable_args(input: &str) -> (args: (String, Option<String>))
    ensures
        args.0@ == input@.subrange(0, field_end(input@, 0)),
        args.1 is None <==> field_end(input@, 0) == input@.len(),
        args.1 matches Some(option) ==> option@ == input@.subrange(
            field_end(input@, 0) + 1,
            field_end(input@, field_end(input@, 0) + 1),
        ),
{
    let len = input.unicode_len();
    let end = find_field_end(input, len, 0);
    let interface = input.substring_char(0, end).to_owned();
    if end == len {
        (interface, None)
    } else {
        let option_end = find_field_end(input, len, end + 1);
        (interface, Some(input.substring_char(end + 1, option_end).to_owned()))
    }
}

/// Whether the command enables the test feature: it does with no option and does not with
/// `disable`; any other option is refused and handed back
pub fn enable_from_option(option: Option<String>) -> (r: Result<bool, String>)
    ensures
        match option {
            None => r == Ok::<bool, String>(true),
            Some(o) => if o@ == "disable"@ {
                r == Ok::<bool, String>(false)
            } else {
                r matches Err(e) && e@ == o@
            },
        },
{
    match option {
        None => Ok(true),
        Some(o) => {
            if o == "disable".to_owned() {
                Ok(false)
            } else {
                Err(o)
            }
        },
    }
}

/// Which counter self-test the command names: `simple` or `combined`; any other input is
/// refused and handed back
pub fn parse_counter_test_kind(input: &str) -> (r: Result<CounterTestKind, String>)
    ensures
        input@ == "simple"@ ==> r == Ok::<CounterTestKind, String>(CounterTestKind::Simple),
        input@ != "simple"@ && input@ == "combined"@ ==> r == Ok::<CounterTestKind, String>(
            CounterTestKind::Combined,
        ),
        input@ != "simple"@ && input@ != "combined"@ ==> (r matches Err(e) && e@ == input@),
{
    let input = input.to_owned();
    if input == "simple".to_owned() {
        Ok(CounterTestKind::Simple)
    } else if input == "combined".to_owned() {
        Ok(CounterTestKind::Combined)
    } else {
        Err(input)
    }
}

/// The error that the negative test command always fails with
pub enum NegativeTestError {
    /// The VNET API error for an invalid value, which the input `vnet-error` asks for
    VnetInvalidValue,
    /// Any other input, handed back
    UnrecognisedInput(String),
}

/// The negative test command, which always fails: with the VNET invalid value error where the
/// input is `vnet-error`, else refusing the input
pub fn negative_test(input: &str) -> (r: Result<(), NegativeTestError>)
    ensures
        input@ == "vnet-error"@ ==> r matches Err(NegativeTestError::VnetInvalidValue),
        input@ != "vnet-error"@ ==> (r matches Err(NegativeTestError::UnrecognisedInput(e))
            && e@ == input@),
{
    let input = input.to_owned();
    if input == "vnet-error".to_owned() {
        Err(NegativeTestError::VnetInvalidValue)
    } else {
        Err(NegativeTestError::UnrecognisedInput(input))
    }
}

} // verus!
