//! VNET buffer flags and metadata

use vstd::prelude::*;

verus! {

/// VNET buffer flags: the VLIB buffer flags, of which the VNET flags are the user bits
#[derive(Copy, Clone, Debug, PartialEq, Eq, Structural)]
pub struct BufferFlags {
    bits: u32,
}

impl BufferFlags {
    /// The flags with exactly the given bits set, whether or not they name VNET flags
    pub fn from_bits_retain(bits: u32) -> (flags: Self)
        ensures
            flags.bits() == bits,
    {
        BufferFlags { bits }
    }

    /// The bits of the flags
    #[verifier::when_used_as_spec(spec_bits)]
    pub fn bits(&self) -> (bits: u32)
        ensures
            bits == self.spec_bits(),
    {
        self.bits
    }

    /// The bits of the flags
    pub closed spec fn spec_bits(&self) -> u32 {
        self.bits
    }
}

impl crate::vlib::buffer::BufferFlags {
    /// Get the VNET buffer flags from the VLIB buffer flags
    pub fn vnet_flags(&self) -> (flags: BufferFlags)
        ensures
            flags.bits() == self.bits(),
    {
        BufferFlags::from_bits_retain(self.bits())
    }
}

/// The index of the receive interface in a buffer's software interface indices
pub const VLIB_RX: usize = 0;

/// The index of the transmit interface in a buffer's software interface indices
pub const VLIB_TX: usize = 1;

/// The transmit interface index that tells nodes to use the interface from forwarding lookups
pub const SW_IF_INDEX_UNSET: u32 = 0xffff_ffff;

/// The number of 32-bit words of the config string heap that `data_bytes` bytes of feature
/// data take, rounded up
pub open spec fn config_words(data_bytes: usize) -> int {
    (data_bytes as int + 3) / 4
}

/// Law: the feature data takes the fewest words that hold all of its bytes
pub proof fn lemma_config_words_round_up(data_bytes: usize)
    ensures
        config_words(data_bytes) * 4 >= data_bytes,
        config_words(data_bytes) * 4 < data_bytes + 4,
{
    vstd::arithmetic::div_mod::lemma_fundamental_div_mod(data_bytes as int + 3, 4);
}

/// Returns the VNET config data for the config at `*config_index` of the config string heap
/// `heap`, whose feature data takes `data_bytes` bytes: the index of the next feature node
/// (the word after the data) and the words of the data. In the process, the config index is
/// advanced to the next config.
///
/// The config must lie within the heap.
pub fn vnet_get_config_data(heap: &[u32], config_index: &mut u32, data_bytes: usize) -> (r: (
    u32,
    Vec<u32>,
))
    requires
        *old(config_index) + config_words(data_bytes) + 1 <= heap@.len(),
        *old(config_index) + config_words(data_bytes) + 1 <= u32::MAX,
    ensures
        r.0 == heap@[*old(config_index) + config_words(data_bytes)],
        r.1@ == heap@.subrange(
            *old(config_index) as int,
            *old(config_index) + config_words(data_bytes),
        ),
        *final(config_index) == *old(config_index) + config_words(data_bytes) + 1,
{
    let index = *config_index as usize;
    let n = data_bytes / 4 + if data_bytes % 4 != 0 {
        1
    } else {
        0
    };
    assert(n == config_words(data_bytes));
    // The last u32 is the next index
    let next = heap[index + n];
    let mut data: Vec<u32> = Vec::new();
    let mut i: usize = 0;
    while i < n
        invariant
            i <= n,
            index + n < heap@.len(),
            heap@.len() == heap.len(),
            data@ == heap@.subrange(index as int, index + i),
        decreases n - i,
    {
        data.push(heap[index + i]);
        i = i + 1;
        assert(data@ =~= heap@.subrange(index as int, index + i));
    }
    // Advance config index to next config
    *config_index = (index + n + 1) as u32;
    (next, data)
}

/// The VNET metadata of a buffer that the accessors below read and write
pub struct BufferRef {
    /// The index of the feature arc that the buffer is being processed from
    feature_arc_index: u8,
    /// The receive and transmit software interface indices
    sw_if_index: [u32; 2],
}

impl BufferRef {
    /// The index of the feature arc that the buffer is being processed from
    pub closed spec fn spec_feature_arc_index(&self) -> u8 {
        self.feature_arc_index
    }

    /// The receive (index 0) and transmit (index 1) software interface indices
    pub closed spec fn spec_sw_if_index(&self) -> Seq<u32> {
        self.sw_if_index@
    }

    /// The metadata of a buffer with the given feature arc and interface indices
    pub fn from_opaque(feature_arc_index: u8, rx_sw_if_index: u32, tx_sw_if_index: u32) -> (b:
        Self)
        ensures
            b.spec_feature_arc_index() == feature_arc_index,
            b.spec_sw_if_index() == seq![rx_sw_if_index, tx_sw_if_index],
    {
        let b = BufferRef { feature_arc_index, sw_if_index: [rx_sw_if_index, tx_sw_if_index] };
        assert(b.spec_sw_if_index() =~= seq![rx_sw_if_index, tx_sw_if_index]);
        b
    }

    /// Returns the index of the feature arc that the buffer is being processed from
    pub fn feature_arc_index(&self) -> (index: u8)
        ensures
            index == self.spec_feature_arc_index(),
    {
        self.feature_arc_index
    }

    /// Returns the index of the receive software interface
    pub fn rx_sw_if_index(&self) -> (index: u32)
        ensures
            index == self.spec_sw_if_index()[VLIB_RX as int],
    {
        self.sw_if_index[VLIB_RX]
    }

    /// Set the index of the receive software interface
    pub fn set_rx_sw_if_index(&mut self, sw_if_index: u32)
        ensures
            final(self).spec_sw_if_index() == old(self).spec_sw_if_index().update(
                VLIB_RX as int,
                sw_if_index,
            ),
            final(self).spec_feature_arc_index() == old(self).spec_feature_arc_index(),
    {
        self.sw_if_index.set(VLIB_RX, sw_if_index);
    }

    /// Returns the index of the transmit software interface, `None` when it is unset
    /// ([`SW_IF_INDEX_UNSET`]) so that nodes use the interface from forwarding lookups
    pub fn tx_sw_if_index(&self) -> (index: Option<u32>)
        ensures
            index == (if self.spec_sw_if_index()[VLIB_TX as int] == SW_IF_INDEX_UNSET {
                None
            } else {
                Some(self.spec_sw_if_index()[VLIB_TX as int])
            }),
    {
        let sw_if_index = self.sw_if_index[VLIB_TX];
        if sw_if_index == SW_IF_INDEX_UNSET {
            None
        } else {
            Some(sw_if_index)
        }
    }

    /// Set the index of the transmit software interface
    ///
    /// If `sw_if_index` is `None` then it will be set to [`SW_IF_INDEX_UNSET`], which
    /// indicates to various nodes to use the interface from forwarding lookups.
    pub fn set_tx_sw_if_index(&mut self, sw_if_index: Option<u32>)
        ensures
            final(self).spec_sw_if_index() == old(self).spec_sw_if_index().update(
                VLIB_TX as int,
                match sw_if_index {
                    Some(index) => index,
                    None => SW_IF_INDEX_UNSET,
                },
            ),
            final(self).spec_feature_arc_index() == old(self).spec_feature_arc_index(),
    {
        let value = match sw_if_index {
            Some(index) => index,
            None => SW_IF_INDEX_UNSET,
        };
        self.sw_if_index.set(VLIB_TX, value);
    }

    /// A buffer has exactly two interface indices: receive and transmit
    pub proof fn lemma_sw_if_index_len(&self)
        ensures
            self.spec_sw_if_index().len() == 2,
    {
    }

    /// Law: what is set as the receive interface is read back, and the transmit interface is
    /// left as it was
    pub proof fn lemma_rx_round_trip(&self, set: Self, sw_if_index: u32)
        requires
            set.spec_sw_if_index() == self.spec_sw_if_index().update(VLIB_RX as int, sw_if_index),
        ensures
            set.spec_sw_if_index()[VLIB_RX as int] == sw_if_index,
            set.spec_sw_if_index()[VLIB_TX as int] == self.spec_sw_if_index()[VLIB_TX as int],
    {
        self.lemma_sw_if_index_len();
    }

    /// Law: what is set as the transmit interface is read back, an unset interface as `None`,
    /// and the receive interface is left as it was
    pub proof fn lemma_tx_round_trip(&self, set: Self, sw_if_index: Option<u32>)
        requires
            set.spec_sw_if_index() == self.spec_sw_if_index().update(
                VLIB_TX as int,
                match sw_if_index {
                    Some(index) => index,
                    None => SW_IF_INDEX_UNSET,
                },
            ),
            sw_if_index != Some(SW_IF_INDEX_UNSET),
        ensures
            (if set.spec_sw_if_index()[VLIB_TX as int] == SW_IF_INDEX_UNSET {
                None
            } else {
                Some(set.spec_sw_if_index()[VLIB_TX as int])
            }) == sw_if_index,
            set.spec_sw_if_index()[VLIB_RX as int] == self.spec_sw_if_index()[VLIB_RX as int],
    {
        self.lemma_sw_if_index_len();
    }
}

} // verus!
