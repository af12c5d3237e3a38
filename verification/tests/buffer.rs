use vpp_plugin::vlib::buffer::BufferFlags;
use vpp_plugin::vnet::buffer::{vnet_get_config_data, BufferRef, SW_IF_INDEX_UNSET};

#[test]
fn vnet_flags_keep_all_bits() {
    let flags = BufferFlags::from_bits_retain(0x8000_0003);
    assert_eq!(flags.vnet_flags().bits(), 0x8000_0003);
}

#[test]
fn sw_if_index_accessors() {
    let mut b = BufferRef::from_opaque(3, 1, SW_IF_INDEX_UNSET);
    assert_eq!(b.feature_arc_index(), 3);
    assert_eq!(b.rx_sw_if_index(), 1);
    assert_eq!(b.tx_sw_if_index(), None);
    b.set_tx_sw_if_index(Some(5));
    assert_eq!(b.tx_sw_if_index(), Some(5));
    assert_eq!(b.rx_sw_if_index(), 1);
    b.set_rx_sw_if_index(9);
    assert_eq!(b.rx_sw_if_index(), 9);
    assert_eq!(b.tx_sw_if_index(), Some(5));
    b.set_tx_sw_if_index(None);
    assert_eq!(b.tx_sw_if_index(), None);
}

#[test]
fn config_data_and_next_index() {
    let heap = [7u32, 11, 12, 13, 42, 99];
    let mut index = 1u32;
    // 9 bytes of data take three words; the word after them is the next index
    let (next, data) = vnet_get_config_data(&heap, &mut index, 9);
    assert_eq!(next, 42);
    assert_eq!(data, vec![11, 12, 13]);
    assert_eq!(index, 5);
    let mut index = 0u32;
    let (next, data) = vnet_get_config_data(&heap, &mut index, 0);
    assert_eq!(next, 7);
    assert!(data.is_empty());
    assert_eq!(index, 1);
    let mut index = 0u32;
    let (next, data) = vnet_get_config_data(&heap, &mut index, 4);
    assert_eq!((next, data, index), (11, vec![7], 2));
}
