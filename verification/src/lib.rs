//! A region-growth simulation core: worker groups grow colored regions on a
//! shared fixed-size pixel buffer by randomized walks, gated by a per-group
//! run/idle status and steered through a thread-priority capability.

pub mod buffer;
pub mod controller;
pub mod priority;
pub mod random;
pub mod region;
pub mod worker;
