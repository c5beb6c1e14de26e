//! Console output: one trusted line writer, and verified formatting of the
//! per-record summary around it.

use crate::decimal::{dec_seq, padded_dec, push_decimal_u64, push_padded_u128};
use crate::json::ops_per_sec_chars;
use crate::record::BenchmarkResult;
use std::io::Write;
use vstd::prelude::*;

verus! {

/// Relies on std::io::Stdout: writes one line to standard output. A console
/// write has no observable result for the caller, so nothing is stated.
#[verifier::external_body]
pub(crate) fn print_line(s: &str) {
    let mut out = std::io::stdout();
    let _ = writeln!(out, "{}", s);
}

/// A record's console text: the name line, then either the error status
/// alone or the duration, memory, operation and throughput lines, each
/// ending in a line break.
pub open spec fn console_result_chars(r: BenchmarkResult) -> Seq<char> {
    "Test: "@ + r.test@ + "\n"@ + match r.error {
        Option::Some(e) => "  Status: "@ + e@ + "\n"@,
        Option::None => "  Duration: "@ + dec_seq(r.duration_ns as nat) + " ns\n  Memory: "@
            + dec_seq(r.memory_bytes as nat) + " bytes\n  Operations: "@ + dec_seq(
            r.operations as nat,
        ) + "\n  Ops/sec: "@ + ops_per_sec_chars(r.operations as int, r.duration_ns as int)
            + "\n"@,
    }
}

/// Renders one record for the console, exactly [`console_result_chars`].
pub fn format_result(r: &BenchmarkResult) -> (out: String)
    requires
        r.wf(),
    ensures
        out@ == console_result_chars(*r),
{
    let mut out = String::new();
    out.append("Test: ");
    out.append(r.test.as_str());
    out.append("\n");
    match &r.error {
        Option::Some(e) => {
            out.append("  Status: ");
            out.append(e.as_str());
            out.append("\n");
        },
        Option::None => {
            out.append("  Duration: ");
            push_decimal_u64(&mut out, r.duration_ns as u64);
            out.append(" ns\n  Memory: ");
            push_decimal_u64(&mut out, r.memory_bytes as u64);
            out.append(" bytes\n  Operations: ");
            push_decimal_u64(&mut out, r.operations as u64);
            out.append("\n  Ops/sec: ");
            crate::json::push_ops_per_sec(&mut out, r.operations, r.duration_ns);
            out.append("\n");
        },
    }
    proof {
        assert(out@ =~= console_result_chars(*r));
    }
    out
}

/// The closing line of the console summary: the run's total wall-clock time
/// in seconds, with three decimals.
pub open spec fn total_time_chars(ns: int) -> Seq<char> {
    "Total execution time: "@ + dec_seq((ns / 1_000_000_000) as nat) + "."@ + padded_dec(
        ((ns % 1_000_000_000) / 1_000_000) as nat,
        3,
    ) + " seconds"@
}

/// Renders the total-time line, exactly [`total_time_chars`].
pub fn format_total_time(ns: u64) -> (out: String)
    ensures
        out@ == total_time_chars(ns as int),
{
    let mut out = String::new();
    out.append("Total execution time: ");
    push_decimal_u64(&mut out, ns / 1_000_000_000);
    out.append(".");
    push_padded_u128(&mut out, ((ns % 1_000_000_000) / 1_000_000) as u128, 3);
    out.append(" seconds");
    proof {
        assert(out@ =~= total_time_chars(ns as int));
    }
    out
}

/// Prints the summary header and every record, one blank line after each,
/// in run order.
pub fn print_results(results: &Vec<BenchmarkResult>)
    requires
        forall|k: int| 0 <= k < results@.len() ==> (#[trigger] results@[k]).wf(),
{
    print_line("\n=== BENCHMARK RESULTS ===");
    let mut i: usize = 0;
    while i < results.len()
        invariant
            i <= results@.len(),
            forall|k: int| 0 <= k < results@.len() ==> (#[trigger] results@[k]).wf(),
        decreases results@.len() - i,
    {
        let text = format_result(&results[i]);
        print_line(text.as_str());
        i = i + 1;
    }
}

} // verus!
