//! VPP networking layer

pub mod buffer;
