//! A micro-benchmark harness: a fixed battery of CPU- and memory-intensive
//! workloads, each timed and summarised in a result record, with a reporter
//! that renders the records for the console and as a JSON report.

pub mod console;
pub mod decimal;
pub mod json;
pub mod parse;
pub mod primes;
pub mod record;
pub mod report;
pub mod workloads;
