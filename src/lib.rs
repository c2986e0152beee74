//! Host system monitoring for benchmarking.
//!
//! The core is the reconstruction of the host's process tree from an
//! unordered batch of per-process query outcomes (`tree`), its deterministic
//! report (`report`), and the all-or-nothing policy over a batch (`batch`).
//! Around it stand the rules of the other startup reports and of the
//! columnar output of measurements.

pub mod batch;
pub mod clock;
pub mod cpu;
pub mod format;
pub mod grouping;
pub mod memory;
pub mod network;
pub mod process;
pub mod query;
pub mod report;
pub mod sensors;
pub mod shape;
pub mod sorted;
pub mod time;
pub mod tree;
pub mod users;
