//! Verified building blocks of a VPP plugin library: hierarchical timer wheels, per-thread
//! counters, barrier-backed read/write lock bookkeeping, VNET buffer metadata and unaligned
//! numeric types for API messages.

pub mod vppinfra;
pub mod vlib;
pub mod vnet;
pub mod vlibapi;
pub mod test_plugin;
