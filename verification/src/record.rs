//! The result record that every workload produces.

use vstd::prelude::*;

verus! {

/// One benchmark outcome: the workload's name, its wall-clock duration in
/// nanoseconds, a reserved memory field (always zero: memory accounting is
/// intentionally unimplemented), the count of logical operations performed,
/// and an error text that is present only if the workload failed.
///
/// Throughput (operations per second) is not stored: it is derived from
/// `operations` and `duration_ns` wherever the record is rendered.
#[derive(Clone, Debug, PartialEq, Eq)]
pub struct BenchmarkResult {
    pub test: String,
    pub duration_ns: i64,
    pub memory_bytes: i64,
    pub operations: i64,
    pub error: Option<String>,
}

/// Hundredths of operations per second, derived by integer arithmetic:
/// `operations * 10^11 / duration_ns`, and zero when no time was measured.
/// Throughput is only meaningful when the duration is positive and no error
/// is present.
pub open spec fn centi_ops_per_sec(ops: int, dur_ns: int) -> int {
    if dur_ns > 0 {
        ops * 100_000_000_000 / dur_ns
    } else {
        0
    }
}

/// Derives the throughput of a record's fields, in hundredths of operations
/// per second.
pub fn compute_centi_ops_per_sec(ops: i64, dur_ns: i64) -> (r: u128)
    requires
        ops >= 0,
        dur_ns >= 0,
    ensures
        r as int == centi_ops_per_sec(ops as int, dur_ns as int),
{
    if dur_ns > 0 {
        (ops as u128) * 100_000_000_000 / (dur_ns as u128)
    } else {
        0
    }
}

impl BenchmarkResult {
    /// The record's invariant: non-negative duration and operation count,
    /// and the reserved memory field pinned to zero.
    pub open spec fn wf(self) -> bool {
        &&& self.duration_ns >= 0
        &&& self.memory_bytes == 0
        &&& self.operations >= 0
    }

    /// A successful outcome.
    pub fn ok(test: String, duration_ns: i64, operations: i64) -> (r: BenchmarkResult)
        requires
            duration_ns >= 0,
            operations >= 0,
        ensures
            r.test == test,
            r.duration_ns == duration_ns,
            r.memory_bytes == 0,
            r.operations == operations,
            r.error is None,
            r.wf(),
    {
        BenchmarkResult {
            test,
            duration_ns,
            memory_bytes: 0,
            operations,
            error: None,
        }
    }

    /// A failed outcome: the numeric fields are meaningless and are pinned
    /// to zero; only the error text is displayed.
    pub fn failed(test: String, error: String) -> (r: BenchmarkResult)
        ensures
            r.test == test,
            r.duration_ns == 0,
            r.memory_bytes == 0,
            r.operations == 0,
            r.error == Some(error),
            r.wf(),
    {
        BenchmarkResult {
            test,
            duration_ns: 0,
            memory_bytes: 0,
            operations: 0,
            error: Some(error),
        }
    }
}

} // verus!
