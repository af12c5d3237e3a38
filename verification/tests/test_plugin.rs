use vpp_plugin::test_plugin::{
    counter_test, enable_from_option, negative_test, parse_counter_test_kind, set_deny_policy,
    split_enable_disable_args, test_node_action, test_x4_node_action, test_x4_node_actions,
    CounterTestKind, NegativeTestError, TestAction,
};
use vpp_plugin::vlib::main::sync::BarrierRwLock;

#[test]
fn short_packet_is_dropped_with_error() {
    let mut policy = BarrierRwLock::new(None);
    assert_eq!(
        test_node_action(27, 1000u16.to_be(), 2u16.to_be(), &mut policy, 0),
        TestAction::DropWithError
    );
    assert_eq!(test_x4_node_action(27, 2u16.to_be()), TestAction::DropWithError);
}

#[test]
fn destination_ports_select_actions() {
    let mut policy = BarrierRwLock::new(None);
    let expected = [
        (1u16, TestAction::DropWithError),
        (2, TestAction::NextFeature),
        (3, TestAction::DropCountingError),
        (4, TestAction::DropCountingCachedError),
        (5, TestAction::CountSimple),
        (6, TestAction::CountCombined),
        (7, TestAction::NextFeature),
        (8, TestAction::DropWithError),
        (0x0102, TestAction::DropWithError),
    ];
    for (port, action) in expected {
        assert_eq!(test_node_action(28, 7u16.to_be(), port.to_be(), &mut policy, 1), action);
    }
}

#[test]
fn ports_are_read_in_network_byte_order() {
    let mut policy = BarrierRwLock::new(None);
    // Port 0x0200 has the bytes of port 2 swapped: it is no test port
    assert_eq!(test_node_action(28, 0, 0x0200u16.to_be(), &mut policy, 0), TestAction::DropWithError);
    assert_eq!(test_node_action(28, 0, 0x0500u16.to_be(), &mut policy, 0), TestAction::DropWithError);
    assert_eq!(test_node_action(28, 0, u16::from_ne_bytes([0, 5]), &mut policy, 0), TestAction::CountSimple);
}

#[test]
fn deny_policy_drops_denied_source_port() {
    let mut policy = BarrierRwLock::new(None);
    assert_eq!(test_node_action(40, 7u16.to_be(), 7u16.to_be(), &mut policy, 0), TestAction::NextFeature);
    set_deny_policy(&mut policy, true);
    assert_eq!(*policy.data(), Some(7));
    assert_eq!(test_node_action(40, 7u16.to_be(), 7u16.to_be(), &mut policy, 0), TestAction::DropWithError);
    assert_eq!(test_node_action(40, 8u16.to_be(), 7u16.to_be(), &mut policy, 0), TestAction::NextFeature);
    set_deny_policy(&mut policy, false);
    assert_eq!(*policy.data(), None);
    assert_eq!(test_node_action(40, 7u16.to_be(), 7u16.to_be(), &mut policy, 0), TestAction::NextFeature);
    assert_eq!(policy.readers(), 0);
    assert!(!policy.writer_held());
}

#[test]
fn x4_node_drops_port_one() {
    let actions = test_x4_node_actions(
        [28, 28, 10, 100],
        [1u16.to_be(), 2u16.to_be(), 2u16.to_be(), 9u16.to_be()],
    );
    assert_eq!(
        actions,
        [
            TestAction::DropWithError,
            TestAction::NextFeature,
            TestAction::DropWithError,
            TestAction::NextFeature,
        ]
    );
}

#[test]
fn counter_self_test_passes() {
    assert_eq!(counter_test(CounterTestKind::Simple, 1), Ok(()));
    assert_eq!(counter_test(CounterTestKind::Simple, 4), Ok(()));
    assert_eq!(counter_test(CounterTestKind::Combined, 1), Ok(()));
    assert_eq!(counter_test(CounterTestKind::Combined, 3), Ok(()));
}

#[test]
fn enable_disable_args_split_on_spaces() {
    assert_eq!(split_enable_disable_args("eth0"), ("eth0".to_string(), None));
    assert_eq!(
        split_enable_disable_args("eth0 disable"),
        ("eth0".to_string(), Some("disable".to_string()))
    );
    assert_eq!(
        split_enable_disable_args("eth0 disable extra"),
        ("eth0".to_string(), Some("disable".to_string()))
    );
    assert_eq!(
        split_enable_disable_args("eth0  disable"),
        ("eth0".to_string(), Some(String::new()))
    );
    assert_eq!(split_enable_disable_args(""), (String::new(), None));
    assert_eq!(
        split_enable_disable_args("\u{e9}th0 on"),
        ("\u{e9}th0".to_string(), Some("on".to_string()))
    );
}

#[test]
fn enable_option() {
    assert_eq!(enable_from_option(None), Ok(true));
    assert_eq!(enable_from_option(Some("disable".to_string())), Ok(false));
    assert_eq!(enable_from_option(Some("enable".to_string())), Err("enable".to_string()));
    assert_eq!(enable_from_option(Some(String::new())), Err(String::new()));
}

#[test]
fn counter_test_kind_from_input() {
    assert_eq!(parse_counter_test_kind("simple"), Ok(CounterTestKind::Simple));
    assert_eq!(parse_counter_test_kind("combined"), Ok(CounterTestKind::Combined));
    assert_eq!(parse_counter_test_kind("other"), Err("other".to_string()));
    assert_eq!(parse_counter_test_kind("simple "), Err("simple ".to_string()));
}

#[test]
fn negative_test_always_fails() {
    assert!(matches!(negative_test("vnet-error"), Err(NegativeTestError::VnetInvalidValue)));
    match negative_test("something") {
        Err(NegativeTestError::UnrecognisedInput(input)) => assert_eq!(input, "something"),
        _ => panic!("expected the input to be refused"),
    }
}
