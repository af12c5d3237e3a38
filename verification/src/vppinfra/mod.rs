//! VPP infrastructure data structures

pub mod slab_pool;
pub mod tw_timer;
pub mod tw_timer_laws;
pub mod tw_timer_turns;
pub mod tw_timer_on_time;
