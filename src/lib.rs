//! Detection of spontaneous bit-flips in a block of process memory.
//!
//! The library holds the monitored buffer, the decisions of the detection
//! loop and the log lines it writes, and the adaptive choice of how much
//! memory to monitor.
pub mod detector;
pub mod text;
pub mod record;
pub mod detection;
pub mod sizing;
pub mod config;
