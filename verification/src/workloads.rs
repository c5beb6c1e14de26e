//! The fixed battery of benchmark workloads.
//!
//! Every workload generates its own input, performs the timed work, and
//! returns one [`BenchmarkResult`]. Elapsed time comes from the monotonic
//! clock and is different on every run; each contract therefore pins down
//! what is deterministic — the workload's name, its operation count, the
//! absence of an error — and leaves the duration as an arbitrary
//! non-negative number.
//!
//! The matrix and math workloads compute on floating-point numbers, which
//! Verus does not admit; their timed bodies live with the caller, and this
//! module builds their result records from the measured duration.

use crate::console::print_line;
use crate::decimal::{dec_seq, push_decimal_u64};
use crate::primes::{count_primes, prime_count};
use crate::record::BenchmarkResult;
use rand::Rng;
use sha2::Digest;
use vstd::prelude::*;

verus! {

#[verifier::external_type_specification]
#[verifier::external_body]
pub struct ExInstant(std::time::Instant);

#[verifier::external_type_specification]
#[verifier::external_body]
pub struct ExThreadRng(rand::rngs::ThreadRng);

/// Relies on std::time::Instant::now: a reading of the monotonic clock.
/// The reading is opaque; only `elapsed_ns` looks at it.
#[verifier::external_body]
fn monotonic_now() -> std::time::Instant {
    std::time::Instant::now()
}

/// Relies on std::time::Instant::elapsed: the nanoseconds that passed since
/// `since` was read. The clock decides the value, so nothing more is stated.
#[verifier::external_body]
fn elapsed_ns(since: &std::time::Instant) -> u128 {
    since.elapsed().as_nanos()
}

/// Relies on rand::thread_rng: a handle to the thread-local generator.
#[verifier::external_body]
fn fresh_rng() -> rand::rngs::ThreadRng {
    rand::thread_rng()
}

/// Relies on rand::Rng::gen: a sample of the standard distribution on `u8`.
/// Any byte may come back, so nothing is stated.
#[verifier::external_body]
fn random_u8(rng: &mut rand::rngs::ThreadRng) -> u8 {
    rng.gen()
}

/// Relies on rand::Rng::gen_range: a uniform sample from `0..=bound`. The
/// range is never empty because `bound >= 0`, so the call cannot panic, and
/// the sample lies in the range.
#[verifier::external_body]
fn random_up_to(rng: &mut rand::rngs::ThreadRng, bound: i32) -> (r: i32)
    requires
        bound >= 0,
    ensures
        0 <= r <= bound,
{
    rng.gen_range(0..=bound)
}

/// What SHA-256 maps a byte sequence to. The algorithm takes pages to state,
/// but its result depends on the input bytes alone, so it only gets a name.
pub uninterp spec fn sha256_of(data: Seq<u8>) -> Seq<u8>;

/// Relies on sha2::Sha256::digest: the SHA-256 digest of the input, which is
/// a function of the input bytes alone and is always 32 bytes long.
#[verifier::external_body]
fn sha256_digest(data: &Vec<u8>) -> (r: Vec<u8>)
    ensures
        r@ == sha256_of(data@),
        r@.len() == 32,
{
    sha2::Sha256::digest(data.as_slice()).to_vec()
}

/// The SHA-256 digest of `data`: 32 bytes, the same on every call.
pub fn sha256(data: &Vec<u8>) -> (r: Vec<u8>)
    ensures
        r@ == sha256_of(data@),
        r@.len() == 32,
{
    sha256_digest(data)
}

/// The sequence never goes down from one position to a later one.
pub open spec fn non_decreasing(s: Seq<i32>) -> bool {
    forall|a: int, b: int| 0 <= a <= b < s.len() ==> s[a] <= s[b]
}

/// Relies on `<[i32]>::sort`: sorts the vector in ascending order, in place,
/// rearranging the elements and adding or dropping none.
#[verifier::external_body]
fn sort_in_place(v: &mut Vec<i32>)
    ensures
        final(v)@.to_multiset() == old(v)@.to_multiset(),
        final(v)@.len() == old(v)@.len(),
        non_decreasing(final(v)@),
{
    v.sort();
}

/// Sorts `data` ascending: the result is a non-decreasing rearrangement of
/// the input, of the same length.
pub fn sorted_ascending(data: Vec<i32>) -> (r: Vec<i32>)
    ensures
        r@.to_multiset() == data@.to_multiset(),
        r@.len() == data@.len(),
        non_decreasing(r@),
{
    let mut v = data;
    sort_in_place(&mut v);
    v
}

/// `len` bytes drawn from the thread-local generator.
pub fn random_buffer(len: usize) -> (r: Vec<u8>)
    ensures
        r@.len() == len,
{
    let mut rng = fresh_rng();
    let mut v: Vec<u8> = Vec::new();
    let mut i: usize = 0;
    while i < len
        invariant
            i <= len,
            v@.len() == i,
        decreases len - i,
    {
        let b = random_u8(&mut rng);
        v.push(b);
        i = i + 1;
    }
    v
}

/// `len` random values, each drawn uniformly from `0..=bound`.
pub fn random_data(len: usize, bound: i32) -> (r: Vec<i32>)
    requires
        bound >= 0,
    ensures
        r@.len() == len,
        forall|k: int| 0 <= k < len ==> 0 <= #[trigger] r@[k] <= bound,
{
    let mut rng = fresh_rng();
    let mut v: Vec<i32> = Vec::new();
    let mut i: usize = 0;
    while i < len
        invariant
            i <= len,
            v@.len() == i,
            forall|k: int| 0 <= k < i ==> 0 <= #[trigger] v@[k] <= bound,
            bound >= 0,
        decreases len - i,
    {
        let x = random_up_to(&mut rng, bound);
        v.push(x);
        i = i + 1;
    }
    v
}

/// A buffer of `len` copies of `value`.
fn filled_buffer(value: i64, len: usize) -> (r: Vec<i64>)
    ensures
        r@.len() == len,
        forall|j: int| 0 <= j < len ==> #[trigger] r@[j] == value,
{
    let mut v: Vec<i64> = Vec::new();
    let mut i: usize = 0;
    while i < len
        invariant
            i <= len,
            v@.len() == i,
            forall|j: int| 0 <= j < i ==> #[trigger] v@[j] == value,
        decreases len - i,
    {
        v.push(value);
        i = i + 1;
    }
    v
}

/// `count` independent buffers, each of `len` copies of the buffer's index
/// reduced modulo 256, all retained until the caller drops them together.
pub fn allocation_churn(count: usize, len: usize) -> (r: Vec<Vec<i64>>)
    ensures
        r@.len() == count,
        forall|k: int| 0 <= k < count ==> #[trigger] r@[k]@.len() == len,
        forall|k: int, j: int| 0 <= k < count && 0 <= j < len ==> #[trigger] r@[k]@[j] == k % 256,
{
    let mut slices: Vec<Vec<i64>> = Vec::new();
    let mut i: usize = 0;
    while i < count
        invariant
            i <= count,
            slices@.len() == i,
            forall|k: int| 0 <= k < i ==> #[trigger] slices@[k]@.len() == len,
            forall|k: int, j: int| 0 <= k < i && 0 <= j < len ==> #[trigger] slices@[k]@[j] == k
                % 256,
        decreases count - i,
    {
        let buf = filled_buffer((i % 256) as i64, len);
        slices.push(buf);
        i = i + 1;
    }
    slices
}

/// The per-iteration token of the string workload: `iteration_<i>_`.
pub open spec fn token(i: nat) -> Seq<char> {
    "iteration_"@ + dec_seq(i) + "_"@
}

/// The tokens for iterations `0..count`, in order, as one string.
pub open spec fn tokens(count: nat) -> Seq<char>
    decreases count,
{
    if count == 0 {
        Seq::empty()
    } else {
        tokens((count - 1) as nat) + token((count - 1) as nat)
    }
}

/// One string built by appending the token `iteration_<i>_` for every
/// iteration `i` in `0..count`.
pub fn concat_tokens(count: u64) -> (r: String)
    ensures
        r@ == tokens(count as nat),
{
    let mut out = String::new();
    let mut i: u64 = 0;
    proof {
        assert(out@ =~= tokens(0));
    }
    while i < count
        invariant
            i <= count,
            out@ == tokens(i as nat),
        decreases count as int - i as int,
    {
        out.append("iteration_");
        push_decimal_u64(&mut out, i);
        out.append("_");
        proof {
            assert(out@ =~= tokens((i + 1) as nat));
        }
        i = i + 1;
    }
    out
}

/// Clamps a nanosecond reading to the record's signed field.
fn clamp_ns(ns: u128) -> (r: i64)
    ensures
        0 <= r,
        ns <= i64::MAX as u128 ==> r as int == ns as int,
{
    if ns > i64::MAX as u128 {
        i64::MAX
    } else {
        ns as i64
    }
}

/// Counts the primes up to 100,000 by trial division, timed.
pub fn benchmark_prime_numbers() -> (r: BenchmarkResult)
    ensures
        r.wf(),
        r.error is None,
        r.operations == prime_count(100_000),
        r.test@ == "Prime Numbers (up to 100k)"@,
{
    let start = monotonic_now();
    let count = count_primes(100_000);
    let ns = clamp_ns(elapsed_ns(&start));
    BenchmarkResult::ok("Prime Numbers (up to 100k)".to_owned(), ns, count as i64)
}

/// The record of the matrix workload: a naive triple-loop multiply of two
/// random 500 by 500 floating-point matrices, whose operation count is the
/// cube of the size whatever the matrices held. The floating-point body runs
/// with the caller, which hands in the measured duration.
pub fn matrix_multiplication_result(duration_ns: i64) -> (r: BenchmarkResult)
    requires
        duration_ns >= 0,
    ensures
        r.wf(),
        r.error is None,
        r.duration_ns == duration_ns,
        r.operations == 500 * 500 * 500,
        r.test@ == "Matrix Multiplication (500x500)"@,
{
    BenchmarkResult::ok("Matrix Multiplication (500x500)".to_owned(), duration_ns, 125_000_000)
}

/// Hashes a fixed 1024-byte random buffer 50,000 times, timed. Every
/// iteration digests the same buffer and discards the digest.
pub fn benchmark_cryptographic_hashing() -> (r: BenchmarkResult)
    ensures
        r.wf(),
        r.error is None,
        r.operations == 50_000,
        r.test@ == "SHA256 Hashing (50k iterations)"@,
{
    let data = random_buffer(1024);
    let start = monotonic_now();
    let mut i: u64 = 0;
    while i < 50_000
        invariant
            i <= 50_000,
        decreases 50_000 - i,
    {
        let _ = sha256(&data);
        i = i + 1;
    }
    let ns = clamp_ns(elapsed_ns(&start));
    BenchmarkResult::ok("SHA256 Hashing (50k iterations)".to_owned(), ns, 50_000)
}

/// The record of the math workload: an accumulation of
/// `sin(x) * cos(x) * sqrt(x + 1)` over ten million values of `x`. The
/// floating-point body runs with the caller, which hands in the measured
/// duration; the iteration count is fixed.
pub fn math_operations_result(duration_ns: i64) -> (r: BenchmarkResult)
    requires
        duration_ns >= 0,
    ensures
        r.wf(),
        r.error is None,
        r.duration_ns == duration_ns,
        r.operations == 10_000_000,
        r.test@ == "Math Operations (10M iterations)"@,
{
    BenchmarkResult::ok("Math Operations (10M iterations)".to_owned(), duration_ns, 10_000_000)
}

/// Sorts one million random values in `0..=1,000,000` ascending, timed.
pub fn benchmark_large_array_sort() -> (r: BenchmarkResult)
    ensures
        r.wf(),
        r.error is None,
        r.operations == 1_000_000,
        r.test@ == "Large Array Sort (1M elements)"@,
{
    let data = random_data(1_000_000, 1_000_000);
    let start = monotonic_now();
    let sorted = sorted_ascending(data);
    let ns = clamp_ns(elapsed_ns(&start));
    let _ = sorted;
    BenchmarkResult::ok("Large Array Sort (1M elements)".to_owned(), ns, 1_000_000)
}

/// Allocates 100,000 independent 256-element buffers, retaining all of them
/// until the workload ends, timed.
pub fn benchmark_memory_allocation() -> (r: BenchmarkResult)
    ensures
        r.wf(),
        r.error is None,
        r.operations == 100_000,
        r.test@ == "Memory Allocation (100k x 1KB)"@,
{
    let start = monotonic_now();
    let slices = allocation_churn(100_000, 256);
    let ns = clamp_ns(elapsed_ns(&start));
    let _ = slices;
    BenchmarkResult::ok("Memory Allocation (100k x 1KB)".to_owned(), ns, 100_000)
}

/// Builds one string of 50,000 appended `iteration_<i>_` tokens, timed.
pub fn benchmark_string_concatenation() -> (r: BenchmarkResult)
    ensures
        r.wf(),
        r.error is None,
        r.operations == 50_000,
        r.test@ == "String Concatenation (50k iterations)"@,
{
    let start = monotonic_now();
    let s = concat_tokens(50_000);
    let ns = clamp_ns(elapsed_ns(&start));
    let _ = s;
    BenchmarkResult::ok("String Concatenation (50k iterations)".to_owned(), ns, 50_000)
}

/// Runs the whole suite and returns one record per workload, in registration
/// order. The two floating-point workloads are measured by the caller —
/// floating point stays outside the verified library — and their finished
/// records are spliced in at their registered positions; the workloads are
/// independent of one another, so the order they ran in changes no record.
pub fn run_all_benchmarks(matrix: BenchmarkResult, math: BenchmarkResult) -> (r: Vec<
    BenchmarkResult,
>)
    requires
        matrix.wf(),
        math.wf(),
    ensures
        r@.len() == 7,
        forall|k: int| 0 <= k < 7 ==> #[trigger] r@[k].wf(),
        r@[0].error is None && r@[0].operations == prime_count(100_000) && r@[0].test@
            == "Prime Numbers (up to 100k)"@,
        r@[1] == matrix,
        r@[2].error is None && r@[2].operations == 50_000 && r@[2].test@
            == "SHA256 Hashing (50k iterations)"@,
        r@[3] == math,
        r@[4].error is None && r@[4].operations == 1_000_000 && r@[4].test@
            == "Large Array Sort (1M elements)"@,
        r@[5].error is None && r@[5].operations == 100_000 && r@[5].test@
            == "Memory Allocation (100k x 1KB)"@,
        r@[6].error is None && r@[6].operations == 50_000 && r@[6].test@
            == "String Concatenation (50k iterations)"@,
{
    let mut results: Vec<BenchmarkResult> = Vec::new();
    print_line("Running CPU-intensive benchmarks...");
    results.push(benchmark_prime_numbers());
    results.push(matrix);
    results.push(benchmark_cryptographic_hashing());
    results.push(math);
    print_line("Running memory-intensive benchmarks...");
    results.push(benchmark_large_array_sort());
    results.push(benchmark_memory_allocation());
    results.push(benchmark_string_concatenation());
    results
}

} // verus!
