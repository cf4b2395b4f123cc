//! A comparative micro-benchmark harness for HTML text-extraction strategies.
//!
//! A [`runner::Runner`] owns one HTML document; each registered strategy (an
//! opaque `Fn(&str) -> String`) is executed a fixed number of trials, with
//! wall-clock time and heap usage captured per trial, aggregated into one
//! [`stats::Stats`] record per strategy, and finally rendered as a sorted
//! comparison table.

pub mod measure;
pub mod runner;
pub mod table;
pub mod sorting;
pub mod stats;
pub mod text;
