//! The report's JSON form, rendered and parsed character by character.
//!
//! The rendering mirrors a pretty-printed JSON object with two-space
//! indentation. Both directions are specified exactly: the renderer's output
//! equals [`report_chars`], and the parser returns the original report for
//! every rendering of a well-formed one (the round trip).

use crate::decimal::{dec_seq, padded_dec, push_decimal_u128, push_decimal_u64, push_padded_u128};
use crate::record::{centi_ops_per_sec, compute_centi_ops_per_sec, BenchmarkResult};
use crate::report::BenchmarkReport;
use vstd::prelude::*;

verus! {

/// A character that JSON can hold in a string without an escape.
pub open spec fn json_safe_char(c: char) -> bool {
    c != '"' && c != '\\' && (c as u32) >= 32
}

/// A string that JSON can hold verbatim, with no escapes.
pub open spec fn json_safe(s: Seq<char>) -> bool {
    forall|k: int| 0 <= k < s.len() ==> json_safe_char(#[trigger] s[k])
}

/// A record whose strings need no JSON escapes.
pub open spec fn result_json_wf(r: BenchmarkResult) -> bool {
    &&& r.wf()
    &&& json_safe(r.test@)
    &&& (r.error matches Some(e) ==> json_safe(e@))
}

/// A report whose strings need no JSON escapes.
pub open spec fn report_json_wf(rep: BenchmarkReport) -> bool {
    &&& json_safe(rep.language@)
    &&& json_safe(rep.timestamp@)
    &&& json_safe(rep.rust_version@)
    &&& json_safe(rep.system.os@)
    &&& json_safe(rep.system.arch@)
    &&& forall|k: int| 0 <= k < rep.tests@.len() ==> result_json_wf(#[trigger] rep.tests@[k])
}

/// The throughput number as text: whole part, a point, two padded decimals.
pub open spec fn ops_per_sec_chars(ops: int, dur_ns: int) -> Seq<char> {
    dec_seq((centi_ops_per_sec(ops, dur_ns) / 100) as nat) + "."@ + padded_dec(
        (centi_ops_per_sec(ops, dur_ns) % 100) as nat,
        2,
    )
}

/// A nanosecond count as seconds: whole part, a point, nine padded decimals.
pub open spec fn seconds_chars(ns: int) -> Seq<char> {
    dec_seq((ns / 1_000_000_000) as nat) + "."@ + padded_dec((ns % 1_000_000_000) as nat, 9)
}

/// The error field's text: `null`, or the error quoted.
pub open spec fn error_chars(e: Option<String>) -> Seq<char> {
    match e {
        Option::None => "null"@,
        Option::Some(s) => "\""@ + s@ + "\""@,
    }
}

/// One record as a JSON object, indented for the `tests` array.
pub open spec fn result_chars(r: BenchmarkResult) -> Seq<char> {
    "{\n      \"test\": \""@ + r.test@ + "\""@ + ",\n      \"duration_ns\": "@ + dec_seq(
        r.duration_ns as nat,
    ) + ",\n      \"memory_bytes\": "@ + dec_seq(r.memory_bytes as nat)
        + ",\n      \"operations\": "@ + dec_seq(r.operations as nat)
        + ",\n      \"ops_per_sec\": "@ + ops_per_sec_chars(
        r.operations as int,
        r.duration_ns as int,
    ) + ",\n      \"error\": "@ + error_chars(r.error) + "\n    }"@
}

/// The first `i` records of the array's body: the first indented, every
/// later one preceded by a separator and the indent.
pub open spec fn list_prefix_chars(s: Seq<BenchmarkResult>, i: int) -> Seq<char>
    decreases i,
{
    if i <= 0 {
        Seq::empty()
    } else if i == 1 {
        "    "@ + result_chars(s[0])
    } else {
        list_prefix_chars(s, i - 1) + ",\n    "@ + result_chars(s[i - 1])
    }
}

/// The records from `j` on, each preceded by a separator and the indent.
pub open spec fn list_suffix_chars(s: Seq<BenchmarkResult>, j: int) -> Seq<char>
    decreases s.len() - j,
{
    if j < 0 || j >= s.len() {
        Seq::empty()
    } else {
        ",\n    "@ + result_chars(s[j]) + list_suffix_chars(s, j + 1)
    }
}

/// The whole `tests` array.
pub open spec fn tests_chars(s: Seq<BenchmarkResult>) -> Seq<char> {
    if s.len() == 0 {
        "[]"@
    } else {
        "[\n"@ + list_prefix_chars(s, s.len() as int) + "\n  ]"@
    }
}

/// The array's body splits after its first `j` records.
pub proof fn lemma_list_split(s: Seq<BenchmarkResult>, j: int)
    requires
        1 <= j <= s.len(),
    ensures
        list_prefix_chars(s, s.len() as int) == list_prefix_chars(s, j) + list_suffix_chars(s, j),
    decreases s.len() - j,
{
    if j == s.len() {
        assert(list_prefix_chars(s, s.len() as int) =~= list_prefix_chars(s, j)
            + list_suffix_chars(s, j));
    } else {
        lemma_list_split(s, j + 1);
        assert(list_prefix_chars(s, j + 1) == list_prefix_chars(s, j) + ",\n    "@ + result_chars(
            s[j],
        ));
        assert(list_prefix_chars(s, s.len() as int) =~= list_prefix_chars(s, j)
            + list_suffix_chars(s, j));
    }
}

/// The whole report as pretty-printed JSON.
pub open spec fn report_chars(rep: BenchmarkReport) -> Seq<char> {
    "{\n  \"language\": \""@ + rep.language@ + "\""@ + ",\n  \"timestamp\": \""@ + rep.timestamp@
        + "\""@ + ",\n  \"rust_version\": \""@ + rep.rust_version@ + "\""@
        + ",\n  \"system\": {\n    \"os\": \""@ + rep.system.os@ + "\""@ + ",\n    \"arch\": \""@
        + rep.system.arch@ + "\""@ + ",\n    \"cpus\": "@ + dec_seq(rep.system.cpus as nat)
        + "\n  },\n  \"tests\": "@ + tests_chars(rep.tests@) + ",\n  \"total_time_seconds\": "@
        + seconds_chars(rep.total_time_ns as int) + "\n}"@
}

/// Appends the throughput number derived from a record's fields.
pub fn push_ops_per_sec(out: &mut String, ops: i64, dur_ns: i64)
    requires
        ops >= 0,
        dur_ns >= 0,
    ensures
        final(out)@ == old(out)@ + ops_per_sec_chars(ops as int, dur_ns as int),
{
    let c = compute_centi_ops_per_sec(ops, dur_ns);
    push_decimal_u128(out, c / 100);
    out.append(".");
    push_padded_u128(out, c % 100, 2);
    proof {
        assert(out@ =~= old(out)@ + ops_per_sec_chars(ops as int, dur_ns as int));
    }
}

/// Appends a nanosecond count rendered as seconds.
fn push_seconds(out: &mut String, ns: u64)
    ensures
        final(out)@ == old(out)@ + seconds_chars(ns as int),
{
    push_decimal_u64(out, ns / 1_000_000_000);
    out.append(".");
    push_padded_u128(out, (ns % 1_000_000_000) as u128, 9);
    proof {
        assert(out@ =~= old(out)@ + seconds_chars(ns as int));
    }
}

/// Appends one record as a JSON object.
fn push_result(out: &mut String, r: &BenchmarkResult)
    requires
        r.wf(),
    ensures
        final(out)@ == old(out)@ + result_chars(*r),
{
    out.append("{\n      \"test\": \"");
    out.append(r.test.as_str());
    out.append("\"");
    out.append(",\n      \"duration_ns\": ");
    push_decimal_u64(out, r.duration_ns as u64);
    out.append(",\n      \"memory_bytes\": ");
    push_decimal_u64(out, r.memory_bytes as u64);
    out.append(",\n      \"operations\": ");
    push_decimal_u64(out, r.operations as u64);
    out.append(",\n      \"ops_per_sec\": ");
    push_ops_per_sec(out, r.operations, r.duration_ns);
    out.append(",\n      \"error\": ");
    match &r.error {
        Option::None => out.append("null"),
        Option::Some(e) => {
            out.append("\"");
            out.append(e.as_str());
            out.append("\"");
        },
    }
    out.append("\n    }");
    proof {
        assert(out@ =~= old(out)@ + result_chars(*r));
    }
}

/// Appends the whole `tests` array.
fn push_tests(out: &mut String, tests: &Vec<BenchmarkResult>)
    requires
        forall|k: int| 0 <= k < tests@.len() ==> (#[trigger] tests@[k]).wf(),
    ensures
        final(out)@ == old(out)@ + tests_chars(tests@),
{
    if tests.len() == 0 {
        out.append("[]");
        return ;
    }
    out.append("[\n");
    let mut i: usize = 0;
    while i < tests.len()
        invariant
            i <= tests@.len(),
            tests@.len() > 0,
            forall|k: int| 0 <= k < tests@.len() ==> (#[trigger] tests@[k]).wf(),
            out@ == old(out)@ + "[\n"@ + list_prefix_chars(tests@, i as int),
        decreases tests@.len() - i,
    {
        if i == 0 {
            out.append("    ");
        } else {
            out.append(",\n    ");
        }
        push_result(out, &tests[i]);
        proof {
            assert(out@ =~= old(out)@ + "[\n"@ + list_prefix_chars(tests@, i as int + 1));
        }
        i = i + 1;
    }
    out.append("\n  ]");
    proof {
        assert(out@ =~= old(out)@ + tests_chars(tests@));
    }
}

/// Renders the report as pretty-printed JSON, exactly [`report_chars`].
pub fn render_report(rep: &BenchmarkReport) -> (out: String)
    requires
        rep.wf(),
    ensures
        out@ == report_chars(*rep),
{
    let mut out = String::new();
    out.append("{\n  \"language\": \"");
    out.append(rep.language.as_str());
    out.append("\"");
    out.append(",\n  \"timestamp\": \"");
    out.append(rep.timestamp.as_str());
    out.append("\"");
    out.append(",\n  \"rust_version\": \"");
    out.append(rep.rust_version.as_str());
    out.append("\"");
    out.append(",\n  \"system\": {\n    \"os\": \"");
    out.append(rep.system.os.as_str());
    out.append("\"");
    out.append(",\n    \"arch\": \"");
    out.append(rep.system.arch.as_str());
    out.append("\"");
    out.append(",\n    \"cpus\": ");
    push_decimal_u64(&mut out, rep.system.cpus);
    out.append("\n  },\n  \"tests\": ");
    push_tests(&mut out, &rep.tests);
    out.append(",\n  \"total_time_seconds\": ");
    push_seconds(&mut out, rep.total_time_ns);
    out.append("\n}");
    proof {
        assert(out@ =~= report_chars(*rep));
    }
    out
}

} // verus!
