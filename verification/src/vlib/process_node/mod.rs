//! Process nodes: the timers that async process nodes sleep on

pub mod tw_timer;
