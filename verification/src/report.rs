//! The per-run report: host metadata, the ordered result records, the total
//! wall-clock time, and the timestamped file name the report is saved under.

use crate::record::BenchmarkResult;
use vstd::prelude::*;

verus! {

/// Host metadata embedded in every report.
#[derive(Clone, Debug, PartialEq, Eq)]
pub struct SystemInfo {
    pub os: String,
    pub arch: String,
    pub cpus: u64,
}

/// One full benchmark run: a language identifier, an ISO-8601-like
/// timestamp, the producing toolchain's version, host metadata, the ordered
/// result records, and the total wall-clock time of the whole run in
/// nanoseconds (measured by an outer timer, not a sum of the per-test
/// durations).
#[derive(Clone, Debug, PartialEq, Eq)]
pub struct BenchmarkReport {
    pub language: String,
    pub timestamp: String,
    pub rust_version: String,
    pub system: SystemInfo,
    pub tests: Vec<BenchmarkResult>,
    pub total_time_ns: u64,
}

impl BenchmarkReport {
    /// Every embedded record satisfies its own invariant.
    pub open spec fn wf(self) -> bool {
        forall|k: int| 0 <= k < self.tests@.len() ==> #[trigger] self.tests@[k].wf()
    }
}

/// Builds the report for one finished run.
pub fn build_report(
    results: Vec<BenchmarkResult>,
    total_time_ns: u64,
    timestamp: String,
    rust_version: String,
    os: String,
    arch: String,
    cpus: u64,
) -> (r: BenchmarkReport)
    ensures
        r.language@ == "rust"@,
        r.timestamp == timestamp,
        r.rust_version == rust_version,
        r.system.os == os,
        r.system.arch == arch,
        r.system.cpus == cpus,
        r.tests == results,
        r.total_time_ns == total_time_ns,
{
    BenchmarkReport {
        language: "rust".to_owned(),
        timestamp,
        rust_version,
        system: SystemInfo { os, arch, cpus },
        tests: results,
        total_time_ns,
    }
}

/// The last Unix second of year 9999: every second up to it is inside the
/// range the timestamp rendering accepts.
pub open spec fn max_timestamp_secs() -> int {
    253_402_300_799
}

/// What chrono renders a UTC Unix timestamp as in the ISO-8601-like form
/// `%Y-%m-%dT%H:%M:%S%z`: a function of the seconds alone.
pub uninterp spec fn iso_timestamp_of(secs: int) -> Seq<char>;

/// What chrono renders a UTC Unix timestamp as in the compact file-name form
/// `%Y%m%d_%H%M%S`: a function of the seconds alone.
pub uninterp spec fn compact_timestamp_of(secs: int) -> Seq<char>;

/// Relies on chrono::DateTime::<Utc>::from_timestamp and `format`: renders
/// `secs` as a UTC timestamp, `%Y-%m-%dT%H:%M:%S%z`. The rendering is a
/// function of the seconds alone; `from_timestamp` returns nothing only
/// outside its supported range, which contains every second up to year 9999.
#[verifier::external_body]
fn format_iso_timestamp(secs: i64) -> (r: Option<String>)
    ensures
        r matches Some(s) ==> s@ == iso_timestamp_of(secs as int),
        0 <= secs <= max_timestamp_secs() ==> r is Some,
{
    match chrono::DateTime::<chrono::Utc>::from_timestamp(secs, 0) {
        Some(dt) => Some(dt.format("%Y-%m-%dT%H:%M:%S%z").to_string()),
        None => None,
    }
}

/// Relies on chrono::DateTime::<Utc>::from_timestamp and `format`: renders
/// `secs` as a UTC timestamp, `%Y%m%d_%H%M%S`. The rendering is a function
/// of the seconds alone; `from_timestamp` returns nothing only outside its
/// supported range, which contains every second up to year 9999.
#[verifier::external_body]
fn format_compact_timestamp(secs: i64) -> (r: Option<String>)
    ensures
        r matches Some(s) ==> s@ == compact_timestamp_of(secs as int),
        0 <= secs <= max_timestamp_secs() ==> r is Some,
{
    match chrono::DateTime::<chrono::Utc>::from_timestamp(secs, 0) {
        Some(dt) => Some(dt.format("%Y%m%d_%H%M%S").to_string()),
        None => None,
    }
}

#[verifier::external_type_specification]
#[verifier::external_body]
pub struct ExSystemTime(std::time::SystemTime);

/// Relies on std::time::SystemTime::now: a reading of the wall clock.
#[verifier::external_body]
fn wall_clock_now() -> std::time::SystemTime {
    std::time::SystemTime::now()
}

/// Relies on std::time::SystemTime::duration_since: the whole seconds from
/// the Unix epoch to `t`, or nothing if `t` stands before the epoch. The
/// clock decides the value, so nothing more is stated.
#[verifier::external_body]
fn secs_since_epoch(t: &std::time::SystemTime) -> Option<u64> {
    match t.duration_since(std::time::UNIX_EPOCH) {
        Ok(d) => Some(d.as_secs()),
        Err(_) => None,
    }
}

/// The wall clock's seconds since the Unix epoch, clamped into the range the
/// timestamp rendering accepts: a clock before the epoch reads as the epoch,
/// one after year 9999 as its last second.
pub fn current_unix_secs() -> (r: i64)
    ensures
        0 <= r <= max_timestamp_secs(),
{
    let now = wall_clock_now();
    let secs: u64 = match secs_since_epoch(&now) {
        Some(s) => s,
        None => 0,
    };
    if secs > 253_402_300_799u64 {
        253_402_300_799i64
    } else {
        secs as i64
    }
}

/// The ISO-8601-like timestamp embedded in the report body.
pub fn get_timestamp(secs: i64) -> (r: String)
    requires
        0 <= secs <= max_timestamp_secs(),
    ensures
        r@ == iso_timestamp_of(secs as int),
{
    match format_iso_timestamp(secs) {
        Some(s) => s,
        None => {
            proof {
                assert(false);
            }
            String::new()
        },
    }
}

/// The compact timestamp embedded in the report's file name.
pub fn get_timestamp_for_filename(secs: i64) -> (r: String)
    requires
        0 <= secs <= max_timestamp_secs(),
    ensures
        r@ == compact_timestamp_of(secs as int),
{
    match format_compact_timestamp(secs) {
        Some(s) => s,
        None => {
            proof {
                assert(false);
            }
            String::new()
        },
    }
}

/// The report's file name for a compact timestamp: a fixed prefix, the
/// timestamp, and the `.json` suffix.
pub open spec fn report_filename_spec(ts: Seq<char>) -> Seq<char> {
    "benchmark_rust_"@ + ts + ".json"@
}

/// Builds the report's file name from the compact timestamp.
pub fn report_filename(ts: &String) -> (r: String)
    ensures
        r@ == report_filename_spec(ts@),
{
    let mut out = "benchmark_rust_".to_owned();
    out.append(ts.as_str());
    out.append(".json");
    proof {
        assert(out@ =~= report_filename_spec(ts@));
    }
    out
}

/// Distinct timestamps give distinct report file names: one run never
/// overwrites the file left by a run from a different second.
pub proof fn lemma_report_filename_injective(ts1: Seq<char>, ts2: Seq<char>)
    requires
        ts1 != ts2,
    ensures
        report_filename_spec(ts1) != report_filename_spec(ts2),
{
    if report_filename_spec(ts1) == report_filename_spec(ts2) {
        let p = "benchmark_rust_"@;
        let s = ".json"@;
        assert((p + ts1 + s).len() == p.len() + ts1.len() + s.len());
        assert((p + ts2 + s).len() == p.len() + ts2.len() + s.len());
        assert(ts1.len() == ts2.len());
        assert forall|k: int| 0 <= k < ts1.len() implies ts1[k] == ts2[k] by {
            assert((p + ts1 + s)[p.len() + k] == ts1[k]);
            assert((p + ts2 + s)[p.len() + k] == ts2[k]);
        }
        assert(ts1 =~= ts2);
    }
}

} // verus!
