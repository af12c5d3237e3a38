//! Support for VPP API messages

pub mod num_unaligned;
pub mod num_unaligned_order;
