//! A small map-reduce framework: a coordinator hands out map and reduce
//! tasks to workers, workers partition, shuffle and reduce key/value pairs
//! through intermediate files. This crate holds the verified logic; the
//! network, file and WebAssembly plumbing lives around it.

pub mod task;
pub mod ids;
pub mod coordinator;
pub mod server;
pub mod text;
pub mod records;
pub mod hashing;
pub mod shuffle;
pub mod paths;
pub mod worker;
pub mod master;
pub mod map_wc;
pub mod reduce_wc;
pub mod laws;
pub mod history;
