//! vlib main thread facilities

pub mod sync;
