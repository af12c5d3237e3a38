//! VPP application library

pub mod buffer;
pub mod counter;
pub mod main;
pub mod process_node;
