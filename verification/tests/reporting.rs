use microbench::console::{format_result, format_total_time};
use microbench::decimal::u64_to_decimal;
use microbench::json::render_report;
use microbench::parse::parse_report;
use microbench::record::BenchmarkResult;
use microbench::report::{
    build_report, get_timestamp, get_timestamp_for_filename, report_filename, BenchmarkReport,
    SystemInfo,
};

fn sample_results() -> Vec<BenchmarkResult> {
    vec![
        BenchmarkResult::ok("Prime Numbers (up to 100k)".to_string(), 123_456_789, 9_592),
        BenchmarkResult::ok("Large Array Sort (1M elements)".to_string(), 1, 1_000_000),
        BenchmarkResult::ok("Instant Workload".to_string(), 0, 5),
        BenchmarkResult::failed("Broken Workload".to_string(), "did not finish".to_string()),
    ]
}

fn sample_report() -> BenchmarkReport {
    build_report(
        sample_results(),
        2_500_000_000,
        "2024-01-01T12:00:00+0000".to_string(),
        "1.0.0".to_string(),
        "linux".to_string(),
        "x86_64".to_string(),
        8,
    )
}

#[test]
fn decimal_rendering() {
    assert_eq!(u64_to_decimal(0), "0");
    assert_eq!(u64_to_decimal(7), "7");
    assert_eq!(u64_to_decimal(12_345), "12345");
    assert_eq!(u64_to_decimal(u64::MAX), "18446744073709551615");
}

#[test]
fn report_round_trip() {
    let report = sample_report();
    let text = render_report(&report);
    let parsed = parse_report(&text).expect("a rendered report parses back");
    assert_eq!(parsed, report);
}

#[test]
fn report_round_trip_empty_tests() {
    let report = build_report(
        Vec::new(),
        0,
        "1970-01-01T00:00:00+0000".to_string(),
        "0.1.0".to_string(),
        "mac os".to_string(),
        "aarch64".to_string(),
        1,
    );
    let text = render_report(&report);
    let parsed = parse_report(&text).expect("an empty report parses back");
    assert_eq!(parsed, report);
}

#[test]
fn parse_rejects_garbage() {
    assert!(parse_report("not a report").is_none());
    assert!(parse_report("").is_none());
    assert!(parse_report("{}").is_none());
}

#[test]
fn rendered_report_is_valid_json() {
    let report = sample_report();
    let text = render_report(&report);
    let v: serde_json::Value = serde_json::from_str(&text).expect("the rendering is JSON");
    assert_eq!(v.get("language").unwrap().as_str(), Some("rust"));
    assert_eq!(
        v.get("timestamp").unwrap().as_str(),
        Some("2024-01-01T12:00:00+0000")
    );
    assert_eq!(v.get("rust_version").unwrap().as_str(), Some("1.0.0"));
    let system = v.get("system").unwrap();
    assert_eq!(system.get("os").unwrap().as_str(), Some("linux"));
    assert_eq!(system.get("arch").unwrap().as_str(), Some("x86_64"));
    assert_eq!(system.get("cpus").unwrap().as_u64(), Some(8));
    assert_eq!(v.get("total_time_seconds").unwrap().as_f64(), Some(2.5));
    let tests = v.get("tests").unwrap().as_array().unwrap();
    assert_eq!(tests.len(), 4);
    assert_eq!(tests[0].get("operations").unwrap().as_i64(), Some(9_592));
    assert_eq!(
        tests[0].get("duration_ns").unwrap().as_i64(),
        Some(123_456_789)
    );
    assert!(tests[0].get("error").unwrap().is_null());
    let exact = 9_592f64 / (123_456_789f64 / 1e9);
    let got = tests[0].get("ops_per_sec").unwrap().as_f64().unwrap();
    assert!((got - exact).abs() <= 0.01 + exact * 1e-9);
    // A zero duration yields a zero throughput rather than a division.
    assert_eq!(tests[2].get("ops_per_sec").unwrap().as_f64(), Some(0.0));
    assert_eq!(
        tests[3].get("error").unwrap().as_str(),
        Some("did not finish")
    );
}

#[test]
fn filename_format_and_distinctness() {
    let a = report_filename(&"20240101_120000".to_string());
    assert_eq!(a, "benchmark_rust_20240101_120000.json");
    let b = report_filename(&"20240101_120001".to_string());
    assert_ne!(a, b);
}

#[test]
fn timestamps_from_fixed_instants() {
    assert_eq!(get_timestamp(0), "1970-01-01T00:00:00+0000");
    assert_eq!(get_timestamp_for_filename(0), "19700101_000000");
    assert_eq!(get_timestamp(1_700_000_000), "2023-11-14T22:13:20+0000");
    assert_eq!(get_timestamp_for_filename(1_700_000_000), "20231114_221320");
}

#[test]
fn console_text_for_a_successful_record() {
    let r = BenchmarkResult::ok("Prime Numbers (up to 100k)".to_string(), 2_000_000_000, 9_592);
    let text = format_result(&r);
    assert_eq!(
        text,
        "Test: Prime Numbers (up to 100k)\n  Duration: 2000000000 ns\n  Memory: 0 bytes\n  Operations: 9592\n  Ops/sec: 4796.00\n"
    );
}

#[test]
fn console_text_for_a_failed_record() {
    let r = BenchmarkResult::failed("Broken".to_string(), "did not finish".to_string());
    let text = format_result(&r);
    assert_eq!(text, "Test: Broken\n  Status: did not finish\n");
}

#[test]
fn total_time_line() {
    assert_eq!(
        format_total_time(1_234_567_890),
        "Total execution time: 1.234 seconds"
    );
    assert_eq!(format_total_time(0), "Total execution time: 0.000 seconds");
}

#[test]
fn system_info_fields() {
    let s = SystemInfo {
        os: "linux".to_string(),
        arch: "x86_64".to_string(),
        cpus: 16,
    };
    let report = build_report(
        Vec::new(),
        1,
        "t".to_string(),
        "v".to_string(),
        s.os.clone(),
        s.arch.clone(),
        s.cpus,
    );
    assert_eq!(report.language, "rust");
    assert_eq!(report.system, s);
    assert_eq!(report.total_time_ns, 1);
}
