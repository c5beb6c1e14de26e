use microbench::primes::{count_primes, is_prime};
use microbench::record::{compute_centi_ops_per_sec, BenchmarkResult};
use microbench::workloads::{
    allocation_churn, benchmark_cryptographic_hashing, benchmark_large_array_sort,
    benchmark_memory_allocation, benchmark_prime_numbers, benchmark_string_concatenation,
    concat_tokens, matrix_multiplication_result, math_operations_result, random_buffer,
    random_data, run_all_benchmarks, sha256, sorted_ascending,
};

#[test]
fn small_primes() {
    assert!(!is_prime(0));
    assert!(!is_prime(1));
    assert!(is_prime(2));
    assert!(is_prime(3));
    assert!(!is_prime(4));
    assert!(is_prime(17));
    assert!(!is_prime(25));
    assert!(is_prime(9973));
    assert!(!is_prime(9975));
}

#[test]
fn prime_count_up_to_one_hundred_thousand() {
    assert_eq!(count_primes(100_000), 9_592);
}

#[test]
fn prime_count_small_limits() {
    assert_eq!(count_primes(1), 0);
    assert_eq!(count_primes(2), 1);
    assert_eq!(count_primes(10), 4);
    assert_eq!(count_primes(100), 25);
}

#[test]
fn prime_workload_record() {
    let r = benchmark_prime_numbers();
    assert_eq!(r.test, "Prime Numbers (up to 100k)");
    assert_eq!(r.operations, 9_592);
    assert_eq!(r.memory_bytes, 0);
    assert!(r.duration_ns >= 0);
    assert!(r.error.is_none());
}

#[test]
fn matrix_record_has_fixed_operation_count() {
    let r = matrix_multiplication_result(12_345);
    assert_eq!(r.test, "Matrix Multiplication (500x500)");
    assert_eq!(r.operations, 125_000_000);
    assert_eq!(r.duration_ns, 12_345);
    assert_eq!(r.memory_bytes, 0);
    assert!(r.error.is_none());
}

#[test]
fn math_record_has_fixed_operation_count() {
    let r = math_operations_result(99);
    assert_eq!(r.test, "Math Operations (10M iterations)");
    assert_eq!(r.operations, 10_000_000);
    assert_eq!(r.duration_ns, 99);
    assert!(r.error.is_none());
}

#[test]
fn hashing_workload_record() {
    let r = benchmark_cryptographic_hashing();
    assert_eq!(r.test, "SHA256 Hashing (50k iterations)");
    assert_eq!(r.operations, 50_000);
    assert!(r.error.is_none());
}

#[test]
fn sha256_digest_is_32_bytes_and_deterministic() {
    let data = random_buffer(1024);
    assert_eq!(data.len(), 1024);
    let d1 = sha256(&data);
    let d2 = sha256(&data.clone());
    assert_eq!(d1.len(), 32);
    assert_eq!(d1, d2);
    assert_ne!(d1, data);
}

#[test]
fn sha256_known_value() {
    // SHA-256 of the empty input, a fixed, independently checkable value.
    let empty: Vec<u8> = Vec::new();
    let d = sha256(&empty);
    let expected: [u8; 32] = [
        0xe3, 0xb0, 0xc4, 0x42, 0x98, 0xfc, 0x1c, 0x14, 0x9a, 0xfb, 0xf4, 0xc8, 0x99, 0x6f,
        0xb9, 0x24, 0x27, 0xae, 0x41, 0xe4, 0x64, 0x9b, 0x93, 0x4c, 0xa4, 0x95, 0x99, 0x1b,
        0x78, 0x52, 0xb8, 0x55,
    ];
    assert_eq!(d.as_slice(), expected.as_slice());
}

#[test]
fn sort_output_is_sorted_rearrangement() {
    let data = random_data(1_000_000, 1_000_000);
    assert_eq!(data.len(), 1_000_000);
    for &x in data.iter() {
        assert!((0..=1_000_000).contains(&x));
    }
    let sorted = sorted_ascending(data.clone());
    assert_eq!(sorted.len(), 1_000_000);
    for w in sorted.windows(2) {
        assert!(w[0] <= w[1]);
    }
    let mut expected = data;
    expected.sort();
    assert_eq!(sorted, expected);
}

#[test]
fn sort_small_example() {
    let sorted = sorted_ascending(vec![3, 1, 2, 2, 0]);
    assert_eq!(sorted, vec![0, 1, 2, 2, 3]);
}

#[test]
fn sort_workload_record() {
    let r = benchmark_large_array_sort();
    assert_eq!(r.test, "Large Array Sort (1M elements)");
    assert_eq!(r.operations, 1_000_000);
    assert!(r.error.is_none());
}

#[test]
fn allocation_workload_record() {
    let r = benchmark_memory_allocation();
    assert_eq!(r.test, "Memory Allocation (100k x 1KB)");
    assert_eq!(r.operations, 100_000);
    assert!(r.error.is_none());
}

#[test]
fn allocation_churn_contents() {
    let buffers = allocation_churn(600, 256);
    assert_eq!(buffers.len(), 600);
    assert_eq!(buffers[0].len(), 256);
    assert!(buffers[0].iter().all(|&v| v == 0));
    assert!(buffers[257].iter().all(|&v| v == 1));
    assert!(buffers[599].iter().all(|&v| v == 599 % 256));
}

#[test]
fn string_workload_record() {
    let r = benchmark_string_concatenation();
    assert_eq!(r.test, "String Concatenation (50k iterations)");
    assert_eq!(r.operations, 50_000);
    assert!(r.error.is_none());
}

#[test]
fn concat_tokens_content() {
    assert_eq!(concat_tokens(0), "");
    assert_eq!(concat_tokens(3), "iteration_0_iteration_1_iteration_2_");
    let s = concat_tokens(50_000);
    assert!(s.starts_with("iteration_0_iteration_1_"));
    assert!(s.ends_with("iteration_49999_"));
}

#[test]
fn run_all_returns_seven_records_in_registration_order() {
    let matrix = matrix_multiplication_result(10);
    let math = math_operations_result(20);
    let results = run_all_benchmarks(matrix, math);
    assert_eq!(results.len(), 7);
    let names: Vec<&str> = results.iter().map(|r| r.test.as_str()).collect();
    assert_eq!(
        names,
        vec![
            "Prime Numbers (up to 100k)",
            "Matrix Multiplication (500x500)",
            "SHA256 Hashing (50k iterations)",
            "Math Operations (10M iterations)",
            "Large Array Sort (1M elements)",
            "Memory Allocation (100k x 1KB)",
            "String Concatenation (50k iterations)",
        ]
    );
    let ops: Vec<i64> = results.iter().map(|r| r.operations).collect();
    assert_eq!(
        ops,
        vec![9_592, 125_000_000, 50_000, 10_000_000, 1_000_000, 100_000, 50_000]
    );
    for r in results.iter() {
        assert!(r.operations >= 0);
        assert!(r.duration_ns >= 0);
        assert_eq!(r.memory_bytes, 0);
        assert!(r.error.is_none());
    }
}

#[test]
fn throughput_matches_float_formula() {
    let ops: i64 = 9_592;
    let dur: i64 = 123_456_789;
    let centi = compute_centi_ops_per_sec(ops, dur);
    let derived = centi as f64 / 100.0;
    let exact = ops as f64 / (dur as f64 / 1e9);
    assert!((derived - exact).abs() <= 0.01 + exact * 1e-9);
    assert_eq!(compute_centi_ops_per_sec(5, 0), 0);
    assert_eq!(compute_centi_ops_per_sec(1, 1_000_000_000), 100);
}

#[test]
fn failed_record_fields() {
    let r = BenchmarkResult::failed("broken".to_string(), "out of memory".to_string());
    assert_eq!(r.test, "broken");
    assert_eq!(r.duration_ns, 0);
    assert_eq!(r.operations, 0);
    assert_eq!(r.error.as_deref(), Some("out of memory"));
}
