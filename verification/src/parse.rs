//! Character-level parsing primitives for the report's JSON form.
//!
//! Every primitive carries two kinds of clauses: what a successful parse
//! returns, and — for the round trip — that it succeeds on any text that
//! starts with what the renderer emits.

use crate::decimal::{dec_seq, digit_char, padded_dec};
use crate::json::{
    error_chars, lemma_list_split, list_prefix_chars, list_suffix_chars, ops_per_sec_chars,
    result_chars, tests_chars,
};
use crate::record::{centi_ops_per_sec, BenchmarkResult};
use vstd::arithmetic::div_mod::lemma_fundamental_div_mod;
use vstd::prelude::*;
use vstd::std_specs::iter::IteratorSpec;

verus! {

/// A decimal digit character.
pub open spec fn is_digit_char(c: char) -> bool {
    c == '0' || c == '1' || c == '2' || c == '3' || c == '4' || c == '5' || c == '6' || c == '7'
        || c == '8' || c == '9'
}

/// The value of a digit character (and a harmless placeholder otherwise).
pub open spec fn digit_val(c: char) -> nat {
    if c == '0' {
        0
    } else if c == '1' {
        1
    } else if c == '2' {
        2
    } else if c == '3' {
        3
    } else if c == '4' {
        4
    } else if c == '5' {
        5
    } else if c == '6' {
        6
    } else if c == '7' {
        7
    } else if c == '8' {
        8
    } else if c == '9' {
        9
    } else {
        10
    }
}

/// The number a digit string denotes, most significant digit first.
pub open spec fn dec_val(s: Seq<char>) -> nat
    decreases s.len(),
{
    if s.len() == 0 {
        0
    } else {
        dec_val(s.drop_last()) * 10 + digit_val(s.last())
    }
}

/// Powers of ten.
pub open spec fn pow10(w: nat) -> nat
    decreases w,
{
    if w == 0 {
        1
    } else {
        10 * pow10((w - 1) as nat)
    }
}

/// Where the run of digit characters that starts at `pos` ends.
pub open spec fn digit_run_end(s: Seq<char>, pos: int) -> int
    decreases s.len() - pos,
{
    if pos < 0 || pos >= s.len() || !is_digit_char(s[pos]) {
        pos
    } else {
        digit_run_end(s, pos + 1)
    }
}

/// `t` occurs in `s` at position `pos`.
pub open spec fn prefix_at(s: Seq<char>, pos: int, t: Seq<char>) -> bool {
    &&& 0 <= pos
    &&& pos + t.len() <= s.len()
    &&& s.subrange(pos, pos + t.len()) == t
}

/// A digit run stays within the text.
pub proof fn lemma_digit_run_bounds(s: Seq<char>, pos: int)
    requires
        0 <= pos <= s.len(),
    ensures
        pos <= digit_run_end(s, pos) <= s.len(),
    decreases s.len() - pos,
{
    if pos < s.len() && is_digit_char(s[pos]) {
        lemma_digit_run_bounds(s, pos + 1);
    }
}

/// A stretch of digits followed by a non-digit (or the text's end) is
/// exactly the digit run.
pub proof fn lemma_digit_run_of(s: Seq<char>, pos: int, e: int)
    requires
        0 <= pos <= e <= s.len(),
        forall|k: int| pos <= k < e ==> is_digit_char(#[trigger] s[k]),
        e == s.len() || !is_digit_char(s[e]),
    ensures
        digit_run_end(s, pos) == e,
    decreases e - pos,
{
    if pos < e {
        lemma_digit_run_of(s, pos + 1, e);
    }
}

/// Reading more digits never makes the number smaller.
pub proof fn lemma_dec_val_mono(s: Seq<char>, pos: int, a: int, b: int)
    requires
        0 <= pos <= a <= b <= s.len(),
    ensures
        dec_val(s.subrange(pos, b)) >= dec_val(s.subrange(pos, a)),
    decreases b - a,
{
    if a < b {
        lemma_dec_val_mono(s, pos, a, b - 1);
        assert(s.subrange(pos, b).drop_last() =~= s.subrange(pos, b - 1));
        assert(dec_val(s.subrange(pos, b)) == dec_val(s.subrange(pos, b - 1)) * 10 + digit_val(
            s.subrange(pos, b).last(),
        ));
    }
}

/// The decimal rendering of `n` consists of digits and reads back as `n`.
pub proof fn lemma_dec_seq_val(n: nat)
    ensures
        dec_seq(n).len() >= 1,
        forall|k: int| 0 <= k < dec_seq(n).len() ==> is_digit_char(#[trigger] dec_seq(n)[k]),
        dec_val(dec_seq(n)) == n,
    decreases n,
{
    if n < 10 {
        assert(dec_seq(n) == seq![digit_char(n as int)]);
        assert(dec_seq(n).drop_last() =~= Seq::<char>::empty());
        assert(dec_seq(n).last() == digit_char(n as int));
        assert(dec_val(dec_seq(n)) == dec_val(Seq::<char>::empty()) * 10 + digit_val(
            digit_char(n as int),
        ));
    } else {
        lemma_dec_seq_val(n / 10);
        let s = dec_seq(n);
        assert(s == dec_seq(n / 10) + seq![digit_char((n % 10) as int)]);
        assert(s.drop_last() =~= dec_seq(n / 10));
        assert(s.last() == digit_char((n % 10) as int));
        assert(dec_val(s) == dec_val(dec_seq(n / 10)) * 10 + digit_val(
            digit_char((n % 10) as int),
        ));
        lemma_fundamental_div_mod(n as int, 10);
    }
}

/// The padded rendering of `n` is `w` digit characters, and reads back as
/// `n` whenever `n` fits in `w` digits.
pub proof fn lemma_padded_dec_val(n: nat, w: nat)
    requires
        w >= 1,
    ensures
        padded_dec(n, w).len() == w,
        forall|k: int| 0 <= k < w ==> is_digit_char(#[trigger] padded_dec(n, w)[k]),
        n < pow10(w) ==> dec_val(padded_dec(n, w)) == n,
    decreases w,
{
    if w == 1 {
        assert(padded_dec(n, w) == seq![digit_char((n % 10) as int)]);
        assert(padded_dec(n, w).drop_last() =~= Seq::<char>::empty());
        assert(padded_dec(n, w).last() == digit_char((n % 10) as int));
        assert(dec_val(padded_dec(n, w)) == dec_val(Seq::<char>::empty()) * 10 + digit_val(
            digit_char((n % 10) as int),
        ));
        if n < pow10(1) {
            assert(pow10(1) == 10 * pow10(0));
            vstd::arithmetic::div_mod::lemma_small_mod(n, 10);
        }
    } else {
        lemma_padded_dec_val(n / 10, (w - 1) as nat);
        let s = padded_dec(n, w);
        assert(s == padded_dec(n / 10, (w - 1) as nat) + seq![digit_char((n % 10) as int)]);
        assert(s.drop_last() =~= padded_dec(n / 10, (w - 1) as nat));
        assert(s.last() == digit_char((n % 10) as int));
        assert(dec_val(s) == dec_val(padded_dec(n / 10, (w - 1) as nat)) * 10 + digit_val(
            digit_char((n % 10) as int),
        ));
        if n < pow10(w) {
            assert(pow10(w) == 10 * pow10((w - 1) as nat));
            lemma_fundamental_div_mod(n as int, 10);
            assert(n / 10 < pow10((w - 1) as nat)) by (nonlinear_arith)
                requires
                    n < 10 * pow10((w - 1) as nat),
                    n == 10 * (n / 10) + n % 10,
                    0 <= n % 10 < 10,
            ;
        }
    }
}

/// A prefix made of two pieces is the first piece followed by the second.
pub proof fn lemma_prefix_split(s: Seq<char>, pos: int, a: Seq<char>, b: Seq<char>)
    requires
        prefix_at(s, pos, a + b),
    ensures
        prefix_at(s, pos, a),
        prefix_at(s, pos + a.len(), b),
{
    assert((a + b).len() == a.len() + b.len());
    assert forall|k: int| 0 <= k < a.len() implies s.subrange(pos, pos + a.len())[k] == a[k] by {
        assert(s.subrange(pos, pos + (a + b).len() as int)[k] == (a + b)[k]);
    }
    assert(s.subrange(pos, pos + a.len()) =~= a);
    assert forall|k: int| 0 <= k < b.len() implies s.subrange(
        pos + a.len(),
        pos + a.len() + b.len(),
    )[k] == b[k] by {
        assert(s.subrange(pos, pos + (a + b).len() as int)[a.len() + k] == (a + b)[a.len() + k]);
    }
    assert(s.subrange(pos + a.len(), pos + a.len() + b.len()) =~= b);
}

/// If quote-free content sits at `pos` with a quote right after it, then
/// the first quote at or after `pos` closes exactly that content.
pub proof fn lemma_quoted_pin(s: Seq<char>, pos: int, content: Seq<char>, p: int, got: Seq<char>)
    requires
        forall|k: int| 0 <= k < content.len() ==> #[trigger] content[k] != '"',
        prefix_at(s, pos, content),
        pos + content.len() < s.len(),
        s[pos + content.len()] == '"',
        pos < p <= s.len(),
        s[p - 1] == '"',
        got == s.subrange(pos, p - 1),
        forall|k: int| pos <= k < p - 1 ==> #[trigger] s[k] != '"',
    ensures
        p - 1 == pos + content.len(),
        got == content,
{
    let t = pos + content.len();
    if p - 1 < t {
        assert(s.subrange(pos, t)[p - 1 - pos] == s[p - 1]);
        assert(content[p - 1 - pos] != '"');
        assert(false);
    }
    if p - 1 > t {
        assert(s[t] != '"');
        assert(false);
    }
    assert forall|k: int| 0 <= k < content.len() implies got[k] == content[k] by {
        assert(s.subrange(pos, t)[k] == content[k]);
    }
    assert(got =~= content);
}

/// Relies on String::push: appends one character (vstd leaves it
/// unspecified).
#[verifier::external_body]
pub(crate) fn push_char(out: &mut String, c: char)
    ensures
        final(out)@ == old(out)@ + seq![c],
{
    out.push(c);
}

/// The characters of `s`, one vector entry each.
pub fn str_chars(s: &str) -> (r: Vec<char>)
    ensures
        r@ == s@,
{
    broadcast use vstd::string::axiom_spec_iter, vstd::string::next_postcondition;

    let mut it = s.chars();
    let mut r: Vec<char> = Vec::new();
    loop
        invariant
            it.obeys_prophetic_iter_laws(),
            it.decrease() is Some,
            r@ + it.remaining() == s@,
        decreases it.decrease()->0,
    {
        let c = it.next();
        match c {
            Option::Some(ch) => {
                r.push(ch);
                proof {
                    assert(r@ + it.remaining() =~= s@);
                }
            },
            Option::None => {
                proof {
                    assert(r@ =~= s@);
                }
                return r;
            },
        }
    }
}

/// The characters `from..to` as a fresh string.
pub(crate) fn string_from_range(chars: &Vec<char>, from: usize, to: usize) -> (r: String)
    requires
        from <= to <= chars@.len(),
    ensures
        r@ == chars@.subrange(from as int, to as int),
{
    let mut out = String::new();
    let mut i: usize = from;
    while i < to
        invariant
            from <= i <= to <= chars@.len(),
            out@ == chars@.subrange(from as int, i as int),
        decreases to - i,
    {
        push_char(&mut out, chars[i]);
        proof {
            assert(out@ =~= chars@.subrange(from as int, i as int + 1));
        }
        i = i + 1;
    }
    out
}

/// The digit a character stands for, if any.
fn digit_of(c: char) -> (r: Option<u8>)
    ensures
        r matches Some(d) ==> is_digit_char(c) && d == digit_val(c) && d < 10,
        r is None ==> !is_digit_char(c),
{
    if c == '0' {
        Some(0)
    } else if c == '1' {
        Some(1)
    } else if c == '2' {
        Some(2)
    } else if c == '3' {
        Some(3)
    } else if c == '4' {
        Some(4)
    } else if c == '5' {
        Some(5)
    } else if c == '6' {
        Some(6)
    } else if c == '7' {
        Some(7)
    } else if c == '8' {
        Some(8)
    } else if c == '9' {
        Some(9)
    } else {
        None
    }
}

/// Consumes `lit` at `pos` if it is there.
pub(crate) fn eat_str(chars: &Vec<char>, pos: usize, lit: &str) -> (r: Option<usize>)
    requires
        pos <= chars@.len(),
    ensures
        r matches Some(p) ==> p == pos + lit@.len() && p <= chars@.len() && chars@.subrange(
            pos as int,
            p as int,
        ) == lit@,
        prefix_at(chars@, pos as int, lit@) ==> r is Some,
{
    let l = str_chars(lit);
    let n = chars.len();
    if n - pos < l.len() {
        return None;
    }
    let mut j: usize = 0;
    while j < l.len()
        invariant
            j <= l@.len(),
            n == chars@.len(),
            pos + l@.len() <= n,
            l@ == lit@,
            forall|k: int| 0 <= k < j ==> chars@[pos + k] == l@[k],
        decreases l@.len() - j,
    {
        if chars[pos + j] != l[j] {
            proof {
                if prefix_at(chars@, pos as int, lit@) {
                    assert(chars@.subrange(pos as int, pos + lit@.len() as int)[j as int]
                        == lit@[j as int]);
                }
            }
            return None;
        }
        j = j + 1;
    }
    proof {
        assert(chars@.subrange(pos as int, pos + lit@.len() as int) =~= lit@);
    }
    Some(pos + l.len())
}

/// Consumes the digit run that starts at `pos`.
pub(crate) fn skip_digits(chars: &Vec<char>, pos: usize) -> (p: usize)
    requires
        pos <= chars@.len(),
    ensures
        p as int == digit_run_end(chars@, pos as int),
        pos <= p <= chars@.len(),
{
    let mut p = pos;
    while p < chars.len() && matches!(digit_of(chars[p]), Some(_))
        invariant
            pos <= p <= chars@.len(),
            digit_run_end(chars@, pos as int) == digit_run_end(chars@, p as int),
        decreases chars@.len() - p,
    {
        p = p + 1;
    }
    p
}

/// Parses the digit run at `pos` as a number. Succeeds exactly when a digit
/// stands at `pos`; yields nothing when the run's value does not fit.
pub(crate) fn parse_u64(chars: &Vec<char>, pos: usize) -> (r: Option<(u64, usize)>)
    requires
        pos <= chars@.len(),
    ensures
        r matches Some(vp) ==> pos < vp.1 <= chars@.len() && vp.1 as int == digit_run_end(
            chars@,
            pos as int,
        ) && vp.0 as nat == dec_val(chars@.subrange(pos as int, vp.1 as int)),
        ({
            let e = digit_run_end(chars@, pos as int);
            (e > pos && dec_val(chars@.subrange(pos as int, e)) <= u64::MAX) ==> r is Some
        }),
{
    proof {
        lemma_digit_run_bounds(chars@, pos as int);
    }
    let ghost e = digit_run_end(chars@, pos as int);
    let mut p: usize = pos;
    let mut v: u64 = 0;
    loop
        invariant
            pos <= p <= chars@.len(),
            pos <= e <= chars@.len(),
            e == digit_run_end(chars@, pos as int),
            digit_run_end(chars@, pos as int) == digit_run_end(chars@, p as int),
            forall|k: int| pos <= k < p ==> is_digit_char(#[trigger] chars@[k]),
            v as nat == dec_val(chars@.subrange(pos as int, p as int)),
        decreases chars@.len() - p,
    {
        if p == chars.len() {
            if p == pos {
                return None;
            }
            return Some((v, p));
        }
        let c = chars[p];
        match digit_of(c) {
            Option::None => {
                if p == pos {
                    return None;
                }
                return Some((v, p));
            },
            Option::Some(d) => {
                let du = d as u64;
                if v > (u64::MAX - du) / 10 {
                    proof {
                        lemma_digit_run_bounds(chars@, p as int + 1);
                        assert(digit_run_end(chars@, p as int) == digit_run_end(
                            chars@,
                            p as int + 1,
                        ));
                        assert(p + 1 <= e);
                        assert(chars@.subrange(pos as int, p as int + 1).drop_last()
                            =~= chars@.subrange(pos as int, p as int));
                        assert(dec_val(chars@.subrange(pos as int, p as int + 1)) == (
                        v as nat) * 10 + d as nat);
                        assert((v as nat) * 10 + (d as nat) > u64::MAX);
                        lemma_dec_val_mono(chars@, pos as int, p as int + 1, e);
                    }
                    return None;
                }
                v = v * 10 + du;
                p = p + 1;
                proof {
                    assert(chars@.subrange(pos as int, p as int).drop_last() =~= chars@.subrange(
                        pos as int,
                        p as int - 1,
                    ));
                    assert(chars@.subrange(pos as int, p as int).last() == chars@[p as int - 1]);
                }
            },
        }
    }
}

/// Parses up to the next quote: the content before it, and the position
/// just past it. Succeeds exactly when a quote stands at or after `pos`.
pub(crate) fn parse_quoted(chars: &Vec<char>, pos: usize) -> (r: Option<(String, usize)>)
    requires
        pos <= chars@.len(),
    ensures
        r matches Some(sp) ==> pos < sp.1 <= chars@.len() && chars@[sp.1 - 1] == '"' && sp.0@
            == chars@.subrange(pos as int, sp.1 - 1) && (forall|k: int|
            pos <= k < sp.1 - 1 ==> #[trigger] chars@[k] != '"'),
        (exists|q: int| pos <= q < chars@.len() && #[trigger] chars@[q] == '"') ==> r is Some,
{
    let mut p: usize = pos;
    loop
        invariant
            pos <= p <= chars@.len(),
            forall|k: int| pos <= k < p ==> #[trigger] chars@[k] != '"',
        decreases chars@.len() - p,
    {
        if p == chars.len() {
            return None;
        }
        if chars[p] == '"' {
            let s = string_from_range(chars, pos, p);
            return Some((s, p + 1));
        }
        p = p + 1;
    }
}

/// A decimal rendering at `p`, followed by a non-digit, is exactly the
/// digit run at `p` and reads back as its number.
pub proof fn lemma_number_pin(s: Seq<char>, p: int, n: nat, follow: char)
    requires
        prefix_at(s, p, dec_seq(n)),
        p + dec_seq(n).len() < s.len(),
        s[p + dec_seq(n).len()] == follow,
        !is_digit_char(follow),
    ensures
        digit_run_end(s, p) == p + dec_seq(n).len(),
        dec_val(s.subrange(p, p + dec_seq(n).len())) == n,
        dec_seq(n).len() >= 1,
{
    lemma_dec_seq_val(n);
    assert forall|k: int| p <= k < p + dec_seq(n).len() implies is_digit_char(
        #[trigger] s[k],
    ) by {
        assert(s.subrange(p, p + dec_seq(n).len())[k - p] == dec_seq(n)[k - p]);
    }
    lemma_digit_run_of(s, p, p + dec_seq(n).len());
}

/// A padded rendering at `p`, followed by a non-digit, is exactly the digit
/// run at `p`.
pub proof fn lemma_padded_pin(s: Seq<char>, p: int, n: nat, w: nat, follow: char)
    requires
        w >= 1,
        prefix_at(s, p, padded_dec(n, w)),
        p + w < s.len(),
        s[p + w as int] == follow,
        !is_digit_char(follow),
    ensures
        digit_run_end(s, p) == p + w,
{
    lemma_padded_dec_val(n, w);
    assert forall|k: int| p <= k < p + w implies is_digit_char(#[trigger] s[k]) by {
        assert(s.subrange(p, p + w as int)[k - p] == padded_dec(n, w)[k - p]);
    }
    lemma_digit_run_of(s, p, p + w);
}

/// Field-for-field equality of two records, strings compared by content.
pub open spec fn result_like(a: BenchmarkResult, b: BenchmarkResult) -> bool {
    &&& a.test@ == b.test@
    &&& a.duration_ns == b.duration_ns
    &&& a.memory_bytes == b.memory_bytes
    &&& a.operations == b.operations
    &&& match (a.error, b.error) {
        (Option::None, Option::None) => true,
        (Option::Some(x), Option::Some(y)) => x@ == y@,
        _ => false,
    }
}

pub open spec fn l_rtest() -> Seq<char> {
    "{\n      \"test\": \""@
}

pub open spec fn l_q() -> Seq<char> {
    "\""@
}

pub open spec fn l_rdur() -> Seq<char> {
    ",\n      \"duration_ns\": "@
}

pub open spec fn l_rmem() -> Seq<char> {
    ",\n      \"memory_bytes\": "@
}

pub open spec fn l_rops() -> Seq<char> {
    ",\n      \"operations\": "@
}

pub open spec fn l_rosec() -> Seq<char> {
    ",\n      \"ops_per_sec\": "@
}

pub open spec fn l_dot() -> Seq<char> {
    "."@
}

pub open spec fn l_rerr() -> Seq<char> {
    ",\n      \"error\": "@
}

pub open spec fn l_rclose() -> Seq<char> {
    "\n    }"@
}

/// The derived throughput of a record, in hundredths.
pub open spec fn r_centi(b: BenchmarkResult) -> int {
    centi_ops_per_sec(b.operations as int, b.duration_ns as int)
}

pub open spec fn ro_test(pos: int) -> int {
    pos + l_rtest().len()
}

pub open spec fn ro_q1(pos: int, b: BenchmarkResult) -> int {
    ro_test(pos) + b.test@.len()
}

pub open spec fn ro_dur(pos: int, b: BenchmarkResult) -> int {
    ro_q1(pos, b) + 1 + l_rdur().len()
}

pub open spec fn ro_memlit(pos: int, b: BenchmarkResult) -> int {
    ro_dur(pos, b) + dec_seq(b.duration_ns as nat).len()
}

pub open spec fn ro_mem(pos: int, b: BenchmarkResult) -> int {
    ro_memlit(pos, b) + l_rmem().len()
}

pub open spec fn ro_opslit(pos: int, b: BenchmarkResult) -> int {
    ro_mem(pos, b) + dec_seq(b.memory_bytes as nat).len()
}

pub open spec fn ro_ops(pos: int, b: BenchmarkResult) -> int {
    ro_opslit(pos, b) + l_rops().len()
}

pub open spec fn ro_oseclit(pos: int, b: BenchmarkResult) -> int {
    ro_ops(pos, b) + dec_seq(b.operations as nat).len()
}

pub open spec fn ro_osec(pos: int, b: BenchmarkResult) -> int {
    ro_oseclit(pos, b) + l_rosec().len()
}

pub open spec fn ro_odot(pos: int, b: BenchmarkResult) -> int {
    ro_osec(pos, b) + dec_seq((r_centi(b) / 100) as nat).len()
}

pub open spec fn ro_errlit(pos: int, b: BenchmarkResult) -> int {
    ro_odot(pos, b) + 3
}

pub open spec fn ro_err(pos: int, b: BenchmarkResult) -> int {
    ro_errlit(pos, b) + l_rerr().len()
}

pub open spec fn ro_close(pos: int, b: BenchmarkResult) -> int {
    ro_err(pos, b) + error_chars(b.error).len()
}

pub open spec fn ro_end(pos: int, b: BenchmarkResult) -> int {
    ro_close(pos, b) + l_rclose().len()
}

/// Where every piece of a rendered record sits, when the rendering occurs
/// at `pos`.
pub proof fn lemma_result_shape(s: Seq<char>, pos: int, b: BenchmarkResult)
    requires
        prefix_at(s, pos, result_chars(b)),
    ensures
        prefix_at(s, pos, l_rtest()),
        prefix_at(s, ro_test(pos), b.test@),
        prefix_at(s, ro_q1(pos, b), l_q()),
        prefix_at(s, ro_q1(pos, b) + 1, l_rdur()),
        prefix_at(s, ro_dur(pos, b), dec_seq(b.duration_ns as nat)),
        prefix_at(s, ro_memlit(pos, b), l_rmem()),
        prefix_at(s, ro_mem(pos, b), dec_seq(b.memory_bytes as nat)),
        prefix_at(s, ro_opslit(pos, b), l_rops()),
        prefix_at(s, ro_ops(pos, b), dec_seq(b.operations as nat)),
        prefix_at(s, ro_oseclit(pos, b), l_rosec()),
        prefix_at(s, ro_osec(pos, b), dec_seq((r_centi(b) / 100) as nat)),
        prefix_at(s, ro_odot(pos, b), l_dot()),
        prefix_at(s, ro_odot(pos, b) + 1, padded_dec((r_centi(b) % 100) as nat, 2)),
        prefix_at(s, ro_errlit(pos, b), l_rerr()),
        prefix_at(s, ro_err(pos, b), error_chars(b.error)),
        prefix_at(s, ro_close(pos, b), l_rclose()),
        ro_end(pos, b) == pos + result_chars(b).len(),
        ro_end(pos, b) <= s.len(),
{
    reveal_strlit("\"");
    reveal_strlit(".");
    assert(l_q().len() == 1);
    assert(l_dot().len() == 1);
    lemma_padded_dec_val((r_centi(b) % 100) as nat, 2);
    let dur = dec_seq(b.duration_ns as nat);
    let mem = dec_seq(b.memory_bytes as nat);
    let ops = dec_seq(b.operations as nat);
    let osec = ops_per_sec_chars(b.operations as int, b.duration_ns as int);
    let err = error_chars(b.error);
    let x12 = l_rtest() + b.test@ + l_q() + l_rdur() + dur + l_rmem() + mem + l_rops() + ops
        + l_rosec() + osec + l_rerr();
    let x11 = l_rtest() + b.test@ + l_q() + l_rdur() + dur + l_rmem() + mem + l_rops() + ops
        + l_rosec() + osec;
    let x10 = l_rtest() + b.test@ + l_q() + l_rdur() + dur + l_rmem() + mem + l_rops() + ops
        + l_rosec();
    let x9 = l_rtest() + b.test@ + l_q() + l_rdur() + dur + l_rmem() + mem + l_rops() + ops;
    let x8 = l_rtest() + b.test@ + l_q() + l_rdur() + dur + l_rmem() + mem + l_rops();
    let x7 = l_rtest() + b.test@ + l_q() + l_rdur() + dur + l_rmem() + mem;
    let x6 = l_rtest() + b.test@ + l_q() + l_rdur() + dur + l_rmem();
    let x5 = l_rtest() + b.test@ + l_q() + l_rdur() + dur;
    let x4 = l_rtest() + b.test@ + l_q() + l_rdur();
    let x3 = l_rtest() + b.test@ + l_q();
    let x2 = l_rtest() + b.test@;
    assert(result_chars(b) == x12 + err + l_rclose());
    lemma_prefix_split(s, pos, x12 + err, l_rclose());
    lemma_prefix_split(s, pos, x12, err);
    lemma_prefix_split(s, pos, x11, l_rerr());
    lemma_prefix_split(s, pos, x10, osec);
    lemma_prefix_split(s, pos, x9, l_rosec());
    lemma_prefix_split(s, pos, x8, ops);
    lemma_prefix_split(s, pos, x7, l_rops());
    lemma_prefix_split(s, pos, x6, mem);
    lemma_prefix_split(s, pos, x5, l_rmem());
    lemma_prefix_split(s, pos, x4, dur);
    lemma_prefix_split(s, pos, x3, l_rdur());
    lemma_prefix_split(s, pos, x2, l_q());
    lemma_prefix_split(s, pos, l_rtest(), b.test@);
    // the throughput text splits once more
    let od = dec_seq((r_centi(b) / 100) as nat);
    let of = padded_dec((r_centi(b) % 100) as nat, 2);
    assert(osec == od + l_dot() + of);
    lemma_prefix_split(s, x10.len() + pos, od + l_dot(), of);
    lemma_prefix_split(s, x10.len() + pos, od, l_dot());
    lemma_padded_dec_val((r_centi(b) % 100) as nat, 2);
}

/// What the text must look like around every piece of a rendered record,
/// once the record's quoted name has been located.
pub proof fn lemma_rendered_record(
    s: Seq<char>,
    pos: int,
    b: BenchmarkResult,
    p2: int,
    got: Seq<char>,
)
    requires
        crate::json::result_json_wf(b),
        prefix_at(s, pos, result_chars(b)),
        ro_test(pos) < p2 <= s.len(),
        s[p2 - 1] == '"',
        got == s.subrange(ro_test(pos), p2 - 1),
        forall|k: int| ro_test(pos) <= k < p2 - 1 ==> #[trigger] s[k] != '"',
    ensures
        got == b.test@,
        p2 == ro_q1(pos, b) + 1,
        prefix_at(s, p2, l_rdur()),
        digit_run_end(s, ro_dur(pos, b)) == ro_memlit(pos, b),
        ro_memlit(pos, b) > ro_dur(pos, b),
        dec_val(s.subrange(ro_dur(pos, b), ro_memlit(pos, b))) == b.duration_ns as nat,
        prefix_at(s, ro_memlit(pos, b), l_rmem()),
        digit_run_end(s, ro_mem(pos, b)) == ro_opslit(pos, b),
        ro_opslit(pos, b) > ro_mem(pos, b),
        dec_val(s.subrange(ro_mem(pos, b), ro_opslit(pos, b))) == b.memory_bytes as nat,
        prefix_at(s, ro_opslit(pos, b), l_rops()),
        digit_run_end(s, ro_ops(pos, b)) == ro_oseclit(pos, b),
        ro_oseclit(pos, b) > ro_ops(pos, b),
        dec_val(s.subrange(ro_ops(pos, b), ro_oseclit(pos, b))) == b.operations as nat,
        prefix_at(s, ro_oseclit(pos, b), l_rosec()),
        digit_run_end(s, ro_osec(pos, b)) == ro_odot(pos, b),
        prefix_at(s, ro_odot(pos, b), l_dot()),
        digit_run_end(s, ro_odot(pos, b) + 1) == ro_errlit(pos, b),
        prefix_at(s, ro_errlit(pos, b), l_rerr()),
        b.error is None ==> prefix_at(s, ro_err(pos, b), "null"@) && ro_close(pos, b) == ro_err(
            pos,
            b,
        ) + 4,
        b.error matches Some(e) ==> s[ro_err(pos, b)] == '"' && prefix_at(
            s,
            ro_err(pos, b),
            l_q(),
        ) && prefix_at(s, ro_err(pos, b) + 1, e@) && ro_err(pos, b) + 1 + e@.len() < s.len() && s[
            ro_err(pos, b) + 1 + e@.len()
        ] == '"' && (forall|k: int| 0 <= k < e@.len() ==> #[trigger] e@[k] != '"') && ro_close(
            pos,
            b,
        ) == ro_err(pos, b) + e@.len() + 2,
        prefix_at(s, ro_close(pos, b), l_rclose()),
        ro_end(pos, b) == pos + result_chars(b).len(),
        ro_end(pos, b) <= s.len(),
{
    lemma_result_shape(s, pos, b);
    reveal_strlit("\"");
    assert(l_q().len() == 1);
    assert(s.subrange(ro_q1(pos, b), ro_q1(pos, b) + 1)[0] == s[ro_q1(pos, b)]);
    assert(s[ro_q1(pos, b)] == '"');
    assert forall|k: int| 0 <= k < b.test@.len() implies #[trigger] b.test@[k] != '"' by {
        assert(crate::json::json_safe_char(b.test@[k]));
    }
    lemma_quoted_pin(s, ro_test(pos), b.test@, p2, got);
    reveal_strlit(",\n      \"memory_bytes\": ");
    assert(s.subrange(ro_memlit(pos, b), ro_memlit(pos, b) + l_rmem().len())[0] == s[ro_memlit(
        pos,
        b,
    )]);
    assert(s[ro_memlit(pos, b)] == ',');
    lemma_number_pin(s, ro_dur(pos, b), b.duration_ns as nat, ',');
    reveal_strlit(",\n      \"operations\": ");
    assert(s.subrange(ro_opslit(pos, b), ro_opslit(pos, b) + l_rops().len())[0] == s[ro_opslit(
        pos,
        b,
    )]);
    assert(s[ro_opslit(pos, b)] == ',');
    lemma_number_pin(s, ro_mem(pos, b), b.memory_bytes as nat, ',');
    reveal_strlit(",\n      \"ops_per_sec\": ");
    assert(s.subrange(ro_oseclit(pos, b), ro_oseclit(pos, b) + l_rosec().len())[0] == s[ro_oseclit(
        pos,
        b,
    )]);
    assert(s[ro_oseclit(pos, b)] == ',');
    lemma_number_pin(s, ro_ops(pos, b), b.operations as nat, ',');
    reveal_strlit(".");
    assert(l_dot().len() == 1);
    assert(s.subrange(ro_odot(pos, b), ro_odot(pos, b) + 1)[0] == s[ro_odot(pos, b)]);
    assert(s[ro_odot(pos, b)] == '.');
    lemma_number_pin(s, ro_osec(pos, b), (r_centi(b) / 100) as nat, '.');
    reveal_strlit(",\n      \"error\": ");
    assert(s.subrange(ro_errlit(pos, b), ro_errlit(pos, b) + l_rerr().len())[0] == s[ro_errlit(
        pos,
        b,
    )]);
    assert(s[ro_errlit(pos, b)] == ',');
    lemma_padded_pin(s, ro_odot(pos, b) + 1, (r_centi(b) % 100) as nat, 2, ',');
    match b.error {
        Option::None => {
            reveal_strlit("null");
            assert(error_chars(b.error) == "null"@);
            assert("null"@.len() == 4);
        },
        Option::Some(e) => {
            assert(error_chars(b.error) == l_q() + e@ + l_q());
            lemma_prefix_split(s, ro_err(pos, b), l_q() + e@, l_q());
            lemma_prefix_split(s, ro_err(pos, b), l_q(), e@);
            assert(s.subrange(ro_err(pos, b), ro_err(pos, b) + 1)[0] == s[ro_err(pos, b)]);
            assert(s[ro_err(pos, b)] == '"');
            let qpos = ro_err(pos, b) + 1 + e@.len();
            assert(s.subrange(qpos, qpos + 1)[0] == s[qpos]);
            assert(s[qpos] == '"');
            assert forall|k: int| 0 <= k < e@.len() implies #[trigger] e@[k] != '"' by {
                assert(crate::json::json_safe_char(e@[k]));
            }
            reveal_strlit("\n    }");
            assert(l_rclose().len() > 0);
        },
    }
}

/// Parses one rendered record. For the round trip: on any text that holds a
/// rendered well-formed record at `pos`, the parse succeeds and returns a
/// field-for-field equal record, consuming exactly the rendering.
#[verifier::rlimit(100)]
pub(crate) fn parse_result(chars: &Vec<char>, pos: usize) -> (r: Option<(BenchmarkResult, usize)>)
    requires
        pos <= chars@.len(),
    ensures
        r matches Some(bp) ==> pos < bp.1 <= chars@.len(),
        forall|b: BenchmarkResult|
            (crate::json::result_json_wf(b) && #[trigger] prefix_at(
                chars@,
                pos as int,
                result_chars(b),
            )) ==> (r matches Some(bp) && result_like(bp.0, b) && bp.1 == pos + result_chars(
                b,
            ).len()),
{
    let s = chars;
    let ghost cs = chars@;
    let ghost posi = pos as int;
    let p1 = match eat_str(s, pos, "{\n      \"test\": \"") {
        Option::Some(p) => p,
        Option::None => {
            proof {
                assert forall|b: BenchmarkResult|
                    (crate::json::result_json_wf(b) && #[trigger] prefix_at(
                        cs,
                        posi,
                        result_chars(b),
                    )) implies false by {
                    lemma_result_shape(cs, posi, b);
                }
            }
            return None;
        },
    };
    let tq = match parse_quoted(s, p1) {
        Option::Some(t) => t,
        Option::None => {
            proof {
                assert forall|b: BenchmarkResult|
                    (crate::json::result_json_wf(b) && #[trigger] prefix_at(
                        cs,
                        posi,
                        result_chars(b),
                    )) implies false by {
                    lemma_result_shape(cs, posi, b);
                    reveal_strlit("\"");
                    assert(cs.subrange(ro_q1(posi, b), ro_q1(posi, b) + 1)[0] == cs[ro_q1(
                        posi,
                        b,
                    )]);
                    assert(cs[ro_q1(posi, b)] == '"');
                    assert(p1 <= ro_q1(posi, b) < cs.len());
                }
            }
            return None;
        },
    };
    let test_s = tq.0;
    let p2 = tq.1;
    let p3 = match eat_str(s, p2, ",\n      \"duration_ns\": ") {
        Option::Some(p) => p,
        Option::None => {
            proof {
                assert forall|b: BenchmarkResult|
                    (crate::json::result_json_wf(b) && #[trigger] prefix_at(
                        cs,
                        posi,
                        result_chars(b),
                    )) implies false by {
                    lemma_rendered_record(cs, posi, b, p2 as int, test_s@);
                }
            }
            return None;
        },
    };
    let du = match parse_u64(s, p3) {
        Option::Some(v) => v,
        Option::None => {
            proof {
                assert forall|b: BenchmarkResult|
                    (crate::json::result_json_wf(b) && #[trigger] prefix_at(
                        cs,
                        posi,
                        result_chars(b),
                    )) implies false by {
                    lemma_rendered_record(cs, posi, b, p2 as int, test_s@);
                    assert(p3 as int == ro_dur(posi, b));
                }
            }
            return None;
        },
    };
    if du.0 > 0x7fff_ffff_ffff_ffffu64 {
        proof {
            assert forall|b: BenchmarkResult|
                (crate::json::result_json_wf(b) && #[trigger] prefix_at(
                    cs,
                    posi,
                    result_chars(b),
                )) implies false by {
                lemma_rendered_record(cs, posi, b, p2 as int, test_s@);
                assert(p3 as int == ro_dur(posi, b));
            }
        }
        return None;
    }
    let dur_i: i64 = du.0 as i64;
    let p4 = du.1;
    let p5 = match eat_str(s, p4, ",\n      \"memory_bytes\": ") {
        Option::Some(p) => p,
        Option::None => {
            proof {
                assert forall|b: BenchmarkResult|
                    (crate::json::result_json_wf(b) && #[trigger] prefix_at(
                        cs,
                        posi,
                        result_chars(b),
                    )) implies false by {
                    lemma_rendered_record(cs, posi, b, p2 as int, test_s@);
                    assert(p3 as int == ro_dur(posi, b));
                    assert(p4 as int == ro_memlit(posi, b));
                }
            }
            return None;
        },
    };
    let mu = match parse_u64(s, p5) {
        Option::Some(v) => v,
        Option::None => {
            proof {
                assert forall|b: BenchmarkResult|
                    (crate::json::result_json_wf(b) && #[trigger] prefix_at(
                        cs,
                        posi,
                        result_chars(b),
                    )) implies false by {
                    lemma_rendered_record(cs, posi, b, p2 as int, test_s@);
                    assert(p3 as int == ro_dur(posi, b));
                    assert(p5 as int == ro_mem(posi, b));
                }
            }
            return None;
        },
    };
    if mu.0 > 0x7fff_ffff_ffff_ffffu64 {
        proof {
            assert forall|b: BenchmarkResult|
                (crate::json::result_json_wf(b) && #[trigger] prefix_at(
                    cs,
                    posi,
                    result_chars(b),
                )) implies false by {
                lemma_rendered_record(cs, posi, b, p2 as int, test_s@);
                assert(p3 as int == ro_dur(posi, b));
                assert(p5 as int == ro_mem(posi, b));
            }
        }
        return None;
    }
    let mem_i: i64 = mu.0 as i64;
    let p6 = mu.1;
    let p7 = match eat_str(s, p6, ",\n      \"operations\": ") {
        Option::Some(p) => p,
        Option::None => {
            proof {
                assert forall|b: BenchmarkResult|
                    (crate::json::result_json_wf(b) && #[trigger] prefix_at(
                        cs,
                        posi,
                        result_chars(b),
                    )) implies false by {
                    lemma_rendered_record(cs, posi, b, p2 as int, test_s@);
                    assert(p3 as int == ro_dur(posi, b));
                    assert(p5 as int == ro_mem(posi, b));
                    assert(p6 as int == ro_opslit(posi, b));
                }
            }
            return None;
        },
    };
    let ou = match parse_u64(s, p7) {
        Option::Some(v) => v,
        Option::None => {
            proof {
                assert forall|b: BenchmarkResult|
                    (crate::json::result_json_wf(b) && #[trigger] prefix_at(
                        cs,
                        posi,
                        result_chars(b),
                    )) implies false by {
                    lemma_rendered_record(cs, posi, b, p2 as int, test_s@);
                    assert(p3 as int == ro_dur(posi, b));
                    assert(p5 as int == ro_mem(posi, b));
                    assert(p7 as int == ro_ops(posi, b));
                }
            }
            return None;
        },
    };
    if ou.0 > 0x7fff_ffff_ffff_ffffu64 {
        proof {
            assert forall|b: BenchmarkResult|
                (crate::json::result_json_wf(b) && #[trigger] prefix_at(
                    cs,
                    posi,
                    result_chars(b),
                )) implies false by {
                lemma_rendered_record(cs, posi, b, p2 as int, test_s@);
                assert(p3 as int == ro_dur(posi, b));
                assert(p5 as int == ro_mem(posi, b));
                assert(p7 as int == ro_ops(posi, b));
            }
        }
        return None;
    }
    let ops_i: i64 = ou.0 as i64;
    let p8 = ou.1;
    let p9 = match eat_str(s, p8, ",\n      \"ops_per_sec\": ") {
        Option::Some(p) => p,
        Option::None => {
            proof {
                assert forall|b: BenchmarkResult|
                    (crate::json::result_json_wf(b) && #[trigger] prefix_at(
                        cs,
                        posi,
                        result_chars(b),
                    )) implies false by {
                    lemma_rendered_record(cs, posi, b, p2 as int, test_s@);
                    assert(p3 as int == ro_dur(posi, b));
                    assert(p5 as int == ro_mem(posi, b));
                    assert(p7 as int == ro_ops(posi, b));
                    assert(p8 as int == ro_oseclit(posi, b));
                }
            }
            return None;
        },
    };
    let p10 = skip_digits(s, p9);
    let p11 = match eat_str(s, p10, ".") {
        Option::Some(p) => p,
        Option::None => {
            proof {
                assert forall|b: BenchmarkResult|
                    (crate::json::result_json_wf(b) && #[trigger] prefix_at(
                        cs,
                        posi,
                        result_chars(b),
                    )) implies false by {
                    lemma_rendered_record(cs, posi, b, p2 as int, test_s@);
                    assert(p3 as int == ro_dur(posi, b));
                    assert(p5 as int == ro_mem(posi, b));
                    assert(p7 as int == ro_ops(posi, b));
                    assert(p9 as int == ro_osec(posi, b));
                    assert(p10 as int == ro_odot(posi, b));
                }
            }
            return None;
        },
    };
    let p12 = skip_digits(s, p11);
    let p13 = match eat_str(s, p12, ",\n      \"error\": ") {
        Option::Some(p) => p,
        Option::None => {
            proof {
                assert forall|b: BenchmarkResult|
                    (crate::json::result_json_wf(b) && #[trigger] prefix_at(
                        cs,
                        posi,
                        result_chars(b),
                    )) implies false by {
                    lemma_rendered_record(cs, posi, b, p2 as int, test_s@);
                    assert(p3 as int == ro_dur(posi, b));
                    assert(p5 as int == ro_mem(posi, b));
                    assert(p7 as int == ro_ops(posi, b));
                    assert(p9 as int == ro_osec(posi, b));
                    reveal_strlit(".");
                    assert(p10 as int == ro_odot(posi, b));
                    assert(p11 as int == ro_odot(posi, b) + 1);
                    assert(p12 as int == ro_errlit(posi, b));
                }
            }
            return None;
        },
    };
    let ep: (Option<String>, usize) = match eat_str(s, p13, "null") {
        Option::Some(p) => (None, p),
        Option::None => {
            let pq = match eat_str(s, p13, "\"") {
                Option::Some(p) => p,
                Option::None => {
                    proof {
                        assert forall|b: BenchmarkResult|
                            (crate::json::result_json_wf(b) && #[trigger] prefix_at(
                                cs,
                                posi,
                                result_chars(b),
                            )) implies false by {
                            lemma_rendered_record(cs, posi, b, p2 as int, test_s@);
                            assert(p3 as int == ro_dur(posi, b));
                            assert(p5 as int == ro_mem(posi, b));
                            assert(p7 as int == ro_ops(posi, b));
                            assert(p9 as int == ro_osec(posi, b));
                            reveal_strlit(".");
                            assert(p10 as int == ro_odot(posi, b));
                            assert(p11 as int == ro_odot(posi, b) + 1);
                            assert(p12 as int == ro_errlit(posi, b));
                            assert(p13 as int == ro_err(posi, b));
                        }
                    }
                    return None;
                },
            };
            match parse_quoted(s, pq) {
                Option::Some(sp) => (Some(sp.0), sp.1),
                Option::None => {
                    proof {
                        assert forall|b: BenchmarkResult|
                            (crate::json::result_json_wf(b) && #[trigger] prefix_at(
                                cs,
                                posi,
                                result_chars(b),
                            )) implies false by {
                            lemma_rendered_record(cs, posi, b, p2 as int, test_s@);
                            assert(p3 as int == ro_dur(posi, b));
                            assert(p5 as int == ro_mem(posi, b));
                            assert(p7 as int == ro_ops(posi, b));
                            assert(p9 as int == ro_osec(posi, b));
                            reveal_strlit(".");
                            assert(p10 as int == ro_odot(posi, b));
                            assert(p11 as int == ro_odot(posi, b) + 1);
                            assert(p12 as int == ro_errlit(posi, b));
                            assert(p13 as int == ro_err(posi, b));
                            if b.error is Some {
                                let e = b.error->0;
                                assert(cs[ro_err(posi, b) + 1 + e@.len()] == '"');
                                assert(pq <= ro_err(posi, b) + 1 + e@.len() < cs.len());
                            }
                        }
                    }
                    return None;
                },
            }
        },
    };
    let err = ep.0;
    let p14 = ep.1;
    let p15 = match eat_str(s, p14, "\n    }") {
        Option::Some(p) => p,
        Option::None => {
            proof {
                assert forall|b: BenchmarkResult|
                    (crate::json::result_json_wf(b) && #[trigger] prefix_at(
                        cs,
                        posi,
                        result_chars(b),
                    )) implies false by {
                    lemma_rendered_record(cs, posi, b, p2 as int, test_s@);
                    assert(p3 as int == ro_dur(posi, b));
                    assert(p5 as int == ro_mem(posi, b));
                    assert(p7 as int == ro_ops(posi, b));
                    assert(p9 as int == ro_osec(posi, b));
                    reveal_strlit(".");
                    assert(p10 as int == ro_odot(posi, b));
                    assert(p11 as int == ro_odot(posi, b) + 1);
                    assert(p12 as int == ro_errlit(posi, b));
                    assert(p13 as int == ro_err(posi, b));
                    reveal_strlit("null");
                    reveal_strlit("\"");
                    if err is None {
                        if b.error is Some {
                            assert(cs.subrange(p13 as int, p13 as int + 4)[0] == cs[p13 as int]);
                            assert(false);
                        }
                        assert(p14 as int == ro_close(posi, b));
                    } else {
                        if b.error is None {
                            assert(prefix_at(cs, p13 as int, "null"@));
                            assert(false);
                        }
                        let e = b.error->0;
                        let es = err->0;
                        lemma_quoted_pin(cs, ro_err(posi, b) + 1, e@, p14 as int, es@);
                        assert(p14 as int == ro_close(posi, b));
                    }
                }
            }
            return None;
        },
    };
    let br = BenchmarkResult {
        test: test_s,
        duration_ns: dur_i,
        memory_bytes: mem_i,
        operations: ops_i,
        error: err,
    };
    proof {
        assert forall|b: BenchmarkResult|
            (crate::json::result_json_wf(b) && #[trigger] prefix_at(
                cs,
                posi,
                result_chars(b),
            )) implies (result_like(br, b) && p15 == posi + result_chars(b).len()) by {
            lemma_rendered_record(cs, posi, b, p2 as int, test_s@);
            assert(p3 as int == ro_dur(posi, b));
            assert(p5 as int == ro_mem(posi, b));
            assert(p7 as int == ro_ops(posi, b));
            assert(p9 as int == ro_osec(posi, b));
            reveal_strlit(".");
            assert(p10 as int == ro_odot(posi, b));
            assert(p11 as int == ro_odot(posi, b) + 1);
            assert(p12 as int == ro_errlit(posi, b));
            assert(p13 as int == ro_err(posi, b));
            reveal_strlit("null");
            reveal_strlit("\"");
            assert(br.test@ == b.test@);
            assert(br.duration_ns == b.duration_ns);
            assert(br.memory_bytes == b.memory_bytes);
            assert(br.operations == b.operations);
            if err is None {
                if b.error is Some {
                    assert(cs.subrange(p13 as int, p13 as int + 4)[0] == cs[p13 as int]);
                    assert(false);
                }
                assert(p14 as int == ro_close(posi, b));
            } else {
                if b.error is None {
                    assert(prefix_at(cs, p13 as int, "null"@));
                    assert(false);
                }
                let e = b.error->0;
                let es = err->0;
                lemma_quoted_pin(cs, ro_err(posi, b) + 1, e@, p14 as int, es@);
                assert(es@ == e@);
                assert(p14 as int == ro_close(posi, b));
            }
            assert(p15 as int == ro_end(posi, b));
        }
    }
    Some((br, p15))
}


/// Every record's strings need no JSON escapes.
pub open spec fn results_json_wf(s: Seq<BenchmarkResult>) -> bool {
    forall|k: int| 0 <= k < s.len() ==> crate::json::result_json_wf(#[trigger] s[k])
}

/// Element-wise [`result_like`].
pub open spec fn seq_like(a: Seq<BenchmarkResult>, b: Seq<BenchmarkResult>) -> bool {
    &&& a.len() == b.len()
    &&& forall|k: int| 0 <= k < a.len() ==> result_like(#[trigger] a[k], b[k])
}

/// Parses the `tests` array. For the round trip: on any text that holds a
/// rendered array of well-formed records at `pos`, the parse succeeds and
/// returns field-for-field equal records, consuming exactly the rendering.
#[verifier::rlimit(100)]
fn parse_tests(chars: &Vec<char>, pos: usize) -> (r: Option<(Vec<BenchmarkResult>, usize)>)
    requires
        pos <= chars@.len(),
    ensures
        r matches Some(vp) ==> pos <= vp.1 <= chars@.len(),
        forall|ts: Seq<BenchmarkResult>|
            (results_json_wf(ts) && #[trigger] prefix_at(chars@, pos as int, tests_chars(ts)))
                ==> (r matches Some(vp) && seq_like(vp.0@, ts) && vp.1 == pos + tests_chars(
                ts,
            ).len()),
{
    let ghost cs = chars@;
    let ghost posi = pos as int;
    match eat_str(chars, pos, "[]") {
        Option::Some(p) => {
            proof {
                assert forall|ts: Seq<BenchmarkResult>|
                    (results_json_wf(ts) && #[trigger] prefix_at(
                        cs,
                        posi,
                        tests_chars(ts),
                    )) implies (ts.len() == 0 && p == posi + tests_chars(ts).len()) by {
                    reveal_strlit("[]");
                    reveal_strlit("[\n");
                    if ts.len() != 0 {
                        assert(cs.subrange(posi, posi + 2)[1] == cs[posi + 1]);
                        assert(cs[posi + 1] == ']');
                        lemma_tests_head(cs, posi, ts);
                        assert(cs[posi + 1] == '\n');
                        assert(false);
                    }
                }
            }
            return Some((Vec::new(), p));
        },
        Option::None => {
        },
    }
    let p0 = match eat_str(chars, pos, "[\n") {
        Option::Some(p) => p,
        Option::None => {
            proof {
                assert forall|ts: Seq<BenchmarkResult>|
                    (results_json_wf(ts) && #[trigger] prefix_at(
                        cs,
                        posi,
                        tests_chars(ts),
                    )) implies false by {
                    if ts.len() == 0 {
                        assert(prefix_at(cs, posi, "[]"@));
                    } else {
                        lemma_tests_head(cs, posi, ts);
                    }
                }
            }
            return None;
        },
    };
    let pi = match eat_str(chars, p0, "    ") {
        Option::Some(p) => p,
        Option::None => {
            proof {
                assert forall|ts: Seq<BenchmarkResult>|
                    (results_json_wf(ts) && #[trigger] prefix_at(
                        cs,
                        posi,
                        tests_chars(ts),
                    )) implies false by {
                    if ts.len() == 0 {
                        assert(prefix_at(cs, posi, "[]"@));
                    } else {
                        lemma_tests_head(cs, posi, ts);
                        reveal_strlit("[\n");
                    }
                }
            }
            return None;
        },
    };
    let first = match parse_result(chars, pi) {
        Option::Some(bp) => bp,
        Option::None => {
            proof {
                assert forall|ts: Seq<BenchmarkResult>|
                    (results_json_wf(ts) && #[trigger] prefix_at(
                        cs,
                        posi,
                        tests_chars(ts),
                    )) implies false by {
                    if ts.len() == 0 {
                        assert(prefix_at(cs, posi, "[]"@));
                    } else {
                        lemma_tests_head(cs, posi, ts);
                        reveal_strlit("[\n");
                        reveal_strlit("    ");
                        assert(pi as int == posi + 6);
                        assert(crate::json::result_json_wf(ts[0]));
                    }
                }
            }
            return None;
        },
    };
    let mut acc: Vec<BenchmarkResult> = Vec::new();
    acc.push(first.0);
    let mut p = first.1;
    proof {
        assert forall|ts: Seq<BenchmarkResult>|
            (results_json_wf(ts) && #[trigger] prefix_at(cs, posi, tests_chars(ts))) implies ({
            &&& acc@.len() <= ts.len()
            &&& seq_like(acc@, ts.subrange(0, acc@.len() as int))
            &&& p as int == posi + 2 + list_prefix_chars(ts, acc@.len() as int).len()
        }) by {
            if ts.len() == 0 {
                assert(prefix_at(cs, posi, "[]"@));
                reveal_strlit("[]");
                reveal_strlit("[\n");
                assert(cs.subrange(posi, posi + 2)[1] == cs[posi + 1]);
                assert(tests_chars(ts) == "[]"@);
                assert(cs[posi + 1] == ']');
                assert(cs[posi + 1] == '\n');
                assert(false);
            } else {
                lemma_tests_head(cs, posi, ts);
                reveal_strlit("[\n");
                reveal_strlit("    ");
                assert(pi as int == posi + 6);
                assert(crate::json::result_json_wf(ts[0]));
                assert(result_like(first.0, ts[0]));
                assert(acc@ =~= seq![first.0]);
                assert(ts.subrange(0, 1)[0] == ts[0]);
            }
        }
    }
    loop
        invariant
            pos <= p <= chars@.len(),
            cs == chars@,
            posi == pos as int,
            acc@.len() >= 1,
            forall|ts: Seq<BenchmarkResult>|
                (results_json_wf(ts) && #[trigger] prefix_at(cs, posi, tests_chars(ts))) ==> ({
                    &&& acc@.len() <= ts.len()
                    &&& seq_like(acc@, ts.subrange(0, acc@.len() as int))
                    &&& p as int == posi + 2 + list_prefix_chars(ts, acc@.len() as int).len()
                }),
        decreases chars@.len() - p,
    {
        let ghost i = acc@.len() as int;
        let ghost pold = p as int;
        match eat_str(chars, p, ",\n    ") {
            Option::None => {
                let pe = match eat_str(chars, p, "\n  ]") {
                    Option::Some(x) => x,
                    Option::None => {
                        proof {
                            assert forall|ts: Seq<BenchmarkResult>|
                                (results_json_wf(ts) && #[trigger] prefix_at(
                                    cs,
                                    posi,
                                    tests_chars(ts),
                                )) implies false by {
                                lemma_tests_at(cs, posi, ts, i);
                                if i < ts.len() {
                                    assert(prefix_at(cs, p as int, ",\n    "@));
                                } else {
                                    assert(prefix_at(cs, p as int, "\n  ]"@));
                                }
                            }
                        }
                        return None;
                    },
                };
                proof {
                    assert forall|ts: Seq<BenchmarkResult>|
                        (results_json_wf(ts) && #[trigger] prefix_at(
                            cs,
                            posi,
                            tests_chars(ts),
                        )) implies (seq_like(acc@, ts) && pe == posi + tests_chars(ts).len()) by {
                        lemma_tests_at(cs, posi, ts, i);
                        reveal_strlit(",\n    ");
                        reveal_strlit("\n  ]");
                        reveal_strlit("[\n");
                        if i < ts.len() {
                            assert(prefix_at(cs, p as int, ",\n    "@));
                            assert(false);
                        }
                        assert(i == ts.len());
                        assert(ts.subrange(0, i) =~= ts);
                    }
                }
                return Some((acc, pe));
            },
            Option::Some(p2) => {
                let nb = match parse_result(chars, p2) {
                    Option::Some(bp) => bp,
                    Option::None => {
                        proof {
                            assert forall|ts: Seq<BenchmarkResult>|
                                (results_json_wf(ts) && #[trigger] prefix_at(
                                    cs,
                                    posi,
                                    tests_chars(ts),
                                )) implies false by {
                                lemma_tests_at(cs, posi, ts, i);
                                reveal_strlit(",\n    ");
                                reveal_strlit("\n  ]");
                                if i == ts.len() {
                                    assert(prefix_at(cs, p as int, "\n  ]"@));
                                    assert(cs.subrange(p as int, p + 6)[0] == cs[p as int]);
                                    assert(cs[p as int] == ',');
                                    assert(cs.subrange(p as int, p + 4)[0] == cs[p as int]);
                                    assert(cs[p as int] == '\n');
                                    assert(false);
                                }
                                assert(prefix_at(cs, p2 as int, result_chars(ts[i])));
                                assert(crate::json::result_json_wf(ts[i]));
                            }
                        }
                        return None;
                    },
                };
                acc.push(nb.0);
                p = nb.1;
                proof {
                    assert forall|ts: Seq<BenchmarkResult>|
                        (results_json_wf(ts) && #[trigger] prefix_at(
                            cs,
                            posi,
                            tests_chars(ts),
                        )) implies ({
                        &&& acc@.len() <= ts.len()
                        &&& seq_like(acc@, ts.subrange(0, acc@.len() as int))
                        &&& p as int == posi + 2 + list_prefix_chars(ts, acc@.len() as int).len()
                    }) by {
                        lemma_tests_at(cs, posi, ts, i);
                        reveal_strlit(",\n    ");
                        reveal_strlit("\n  ]");
                        if i == ts.len() {
                            assert(prefix_at(cs, pold, "\n  ]"@));
                            assert(cs.subrange(pold, pold + 6)[0] == cs[pold]);
                            assert(cs[pold] == ',');
                            assert(cs.subrange(pold, pold + 4)[0] == cs[pold]);
                            assert(cs[pold] == '\n');
                            assert(false);
                        }
                        assert(prefix_at(cs, p2 as int, result_chars(ts[i])));
                        assert(crate::json::result_json_wf(ts[i]));
                        assert(result_like(nb.0, ts[i]));
                        assert(forall|j: int| 0 <= j < i + 1 ==> result_like(#[trigger] acc@[j], ts.subrange(0, i + 1)[j]));
                    }
                }
            },
        }
    }
}

/// A non-empty rendered array opens with the bracket, the first indent, and
/// the first record.
pub proof fn lemma_tests_head(s: Seq<char>, pos: int, ts: Seq<BenchmarkResult>)
    requires
        ts.len() >= 1,
        prefix_at(s, pos, tests_chars(ts)),
    ensures
        prefix_at(s, pos, "[\n"@),
        prefix_at(s, pos + "[\n"@.len(), "    "@),
        prefix_at(s, pos + "[\n"@.len() + "    "@.len(), result_chars(ts[0])),
{
    let body = list_prefix_chars(ts, ts.len() as int);
    lemma_prefix_split(s, pos, "[\n"@ + body, "\n  ]"@);
    lemma_prefix_split(s, pos, "[\n"@, body);
    lemma_list_split(ts, 1);
    assert(body == list_prefix_chars(ts, 1) + list_suffix_chars(ts, 1));
    lemma_prefix_split(s, pos + "[\n"@.len(), list_prefix_chars(ts, 1), list_suffix_chars(ts, 1));
    assert(list_prefix_chars(ts, 1) == "    "@ + result_chars(ts[0]));
    lemma_prefix_split(s, pos + "[\n"@.len(), "    "@, result_chars(ts[0]));
}

/// After `i` records of a rendered array, the rest of the body and the
/// closing bracket follow.
pub proof fn lemma_tests_at(s: Seq<char>, pos: int, ts: Seq<BenchmarkResult>, i: int)
    requires
        1 <= i <= ts.len(),
        prefix_at(s, pos, tests_chars(ts)),
    ensures
        i < ts.len() ==> prefix_at(s, pos + 2 + list_prefix_chars(ts, i).len(), ",\n    "@)
            && prefix_at(
            s,
            pos + 2 + list_prefix_chars(ts, i).len() + ",\n    "@.len(),
            result_chars(ts[i]),
        ) && list_prefix_chars(ts, i + 1).len() == list_prefix_chars(ts, i).len()
            + ",\n    "@.len() + result_chars(ts[i]).len(),
        i == ts.len() ==> prefix_at(s, pos + 2 + list_prefix_chars(ts, i).len(), "\n  ]"@)
            && pos + tests_chars(ts).len() == pos + 2 + list_prefix_chars(ts, i).len()
            + "\n  ]"@.len(),
{
    reveal_strlit("[\n");
    reveal_strlit("\n  ]");
    let body = list_prefix_chars(ts, ts.len() as int);
    lemma_prefix_split(s, pos, "[\n"@ + body, "\n  ]"@);
    lemma_prefix_split(s, pos, "[\n"@, body);
    lemma_list_split(ts, i);
    assert(body == list_prefix_chars(ts, i) + list_suffix_chars(ts, i));
    lemma_prefix_split(s, pos + 2, list_prefix_chars(ts, i), list_suffix_chars(ts, i));
    let at = pos + 2 + list_prefix_chars(ts, i).len();
    if i < ts.len() {
        assert(list_suffix_chars(ts, i) == ",\n    "@ + result_chars(ts[i]) + list_suffix_chars(
            ts,
            i + 1,
        ));
        lemma_prefix_split(s, at, ",\n    "@ + result_chars(ts[i]), list_suffix_chars(ts, i + 1));
        lemma_prefix_split(s, at, ",\n    "@, result_chars(ts[i]));
        if i == 1 {
            assert(list_prefix_chars(ts, 2) == list_prefix_chars(ts, 1) + ",\n    "@
                + result_chars(ts[1]));
        } else {
            assert(list_prefix_chars(ts, i + 1) == list_prefix_chars(ts, i) + ",\n    "@
                + result_chars(ts[i]));
        }
    } else {
        assert(list_suffix_chars(ts, i) =~= Seq::<char>::empty());
        assert(body =~= list_prefix_chars(ts, i));
        assert(at == pos + 2 + body.len());
        assert(prefix_at(s, at, "\n  ]"@));
    }
}



/// A sequence is a prefix of itself at its start.
pub proof fn lemma_whole_prefix(s: Seq<char>, t: Seq<char>)
    requires
        s == t,
    ensures
        prefix_at(s, 0, t),
{
    assert(s.subrange(0, t.len() as int) =~= t);
}

/// Field-for-field equality of two reports, strings compared by content.
pub open spec fn report_like(
    a: crate::report::BenchmarkReport,
    b: crate::report::BenchmarkReport,
) -> bool {
    &&& a.language@ == b.language@
    &&& a.timestamp@ == b.timestamp@
    &&& a.rust_version@ == b.rust_version@
    &&& a.system.os@ == b.system.os@
    &&& a.system.arch@ == b.system.arch@
    &&& a.system.cpus == b.system.cpus
    &&& seq_like(a.tests@, b.tests@)
    &&& a.total_time_ns == b.total_time_ns
}

pub open spec fn l_plang() -> Seq<char> {
    "{\n  \"language\": \""@
}

pub open spec fn l_ptime() -> Seq<char> {
    ",\n  \"timestamp\": \""@
}

pub open spec fn l_pver() -> Seq<char> {
    ",\n  \"rust_version\": \""@
}

pub open spec fn l_psys() -> Seq<char> {
    ",\n  \"system\": {\n    \"os\": \""@
}

pub open spec fn l_parch() -> Seq<char> {
    ",\n    \"arch\": \""@
}

pub open spec fn l_pcpus() -> Seq<char> {
    ",\n    \"cpus\": "@
}

pub open spec fn l_ptests() -> Seq<char> {
    "\n  },\n  \"tests\": "@
}

pub open spec fn l_ptotal() -> Seq<char> {
    ",\n  \"total_time_seconds\": "@
}

pub open spec fn l_pend() -> Seq<char> {
    "\n}"@
}

#[verifier::opaque]
pub open spec fn rp_lang(pos: int) -> int {
    pos + l_plang().len()
}

#[verifier::opaque]
pub open spec fn rp_q1(pos: int, rep: crate::report::BenchmarkReport) -> int {
    rp_lang(pos) + rep.language@.len()
}

#[verifier::opaque]
pub open spec fn rp_time(pos: int, rep: crate::report::BenchmarkReport) -> int {
    rp_q1(pos, rep) + 1 + l_ptime().len()
}

#[verifier::opaque]
pub open spec fn rp_q2(pos: int, rep: crate::report::BenchmarkReport) -> int {
    rp_time(pos, rep) + rep.timestamp@.len()
}

#[verifier::opaque]
pub open spec fn rp_ver(pos: int, rep: crate::report::BenchmarkReport) -> int {
    rp_q2(pos, rep) + 1 + l_pver().len()
}

#[verifier::opaque]
pub open spec fn rp_q3(pos: int, rep: crate::report::BenchmarkReport) -> int {
    rp_ver(pos, rep) + rep.rust_version@.len()
}

#[verifier::opaque]
pub open spec fn rp_os(pos: int, rep: crate::report::BenchmarkReport) -> int {
    rp_q3(pos, rep) + 1 + l_psys().len()
}

#[verifier::opaque]
pub open spec fn rp_q4(pos: int, rep: crate::report::BenchmarkReport) -> int {
    rp_os(pos, rep) + rep.system.os@.len()
}

#[verifier::opaque]
pub open spec fn rp_arch(pos: int, rep: crate::report::BenchmarkReport) -> int {
    rp_q4(pos, rep) + 1 + l_parch().len()
}

#[verifier::opaque]
pub open spec fn rp_q5(pos: int, rep: crate::report::BenchmarkReport) -> int {
    rp_arch(pos, rep) + rep.system.arch@.len()
}

#[verifier::opaque]
pub open spec fn rp_cpus(pos: int, rep: crate::report::BenchmarkReport) -> int {
    rp_q5(pos, rep) + 1 + l_pcpus().len()
}

#[verifier::opaque]
pub open spec fn rp_tslit(pos: int, rep: crate::report::BenchmarkReport) -> int {
    rp_cpus(pos, rep) + dec_seq(rep.system.cpus as nat).len()
}

#[verifier::opaque]
pub open spec fn rp_tests(pos: int, rep: crate::report::BenchmarkReport) -> int {
    rp_tslit(pos, rep) + l_ptests().len()
}

#[verifier::opaque]
pub open spec fn rp_totlit(pos: int, rep: crate::report::BenchmarkReport) -> int {
    rp_tests(pos, rep) + tests_chars(rep.tests@).len()
}

#[verifier::opaque]
pub open spec fn rp_secs(pos: int, rep: crate::report::BenchmarkReport) -> int {
    rp_totlit(pos, rep) + l_ptotal().len()
}

#[verifier::opaque]
pub open spec fn rp_dot(pos: int, rep: crate::report::BenchmarkReport) -> int {
    rp_secs(pos, rep) + dec_seq((rep.total_time_ns / 1_000_000_000) as nat).len()
}

#[verifier::opaque]
pub open spec fn rp_frac(pos: int, rep: crate::report::BenchmarkReport) -> int {
    rp_dot(pos, rep) + 1
}

#[verifier::opaque]
pub open spec fn rp_close(pos: int, rep: crate::report::BenchmarkReport) -> int {
    rp_frac(pos, rep) + 9
}

#[verifier::opaque]
pub open spec fn rp_end(pos: int, rep: crate::report::BenchmarkReport) -> int {
    rp_close(pos, rep) + l_pend().len()
}

/// Where every piece of a rendered report sits, when the rendering occurs
/// at `pos`.
#[verifier::rlimit(100)]
pub proof fn lemma_report_shape(s: Seq<char>, pos: int, rep: crate::report::BenchmarkReport)
    requires
        prefix_at(s, pos, crate::json::report_chars(rep)),
    ensures
        prefix_at(s, pos, l_plang()),
        prefix_at(s, rp_lang(pos), rep.language@),
        prefix_at(s, rp_q1(pos, rep), l_q()),
        prefix_at(s, rp_q1(pos, rep) + 1, l_ptime()),
        prefix_at(s, rp_time(pos, rep), rep.timestamp@),
        prefix_at(s, rp_q2(pos, rep), l_q()),
        prefix_at(s, rp_q2(pos, rep) + 1, l_pver()),
        prefix_at(s, rp_ver(pos, rep), rep.rust_version@),
        prefix_at(s, rp_q3(pos, rep), l_q()),
        prefix_at(s, rp_q3(pos, rep) + 1, l_psys()),
        prefix_at(s, rp_os(pos, rep), rep.system.os@),
        prefix_at(s, rp_q4(pos, rep), l_q()),
        prefix_at(s, rp_q4(pos, rep) + 1, l_parch()),
        prefix_at(s, rp_arch(pos, rep), rep.system.arch@),
        prefix_at(s, rp_q5(pos, rep), l_q()),
        prefix_at(s, rp_q5(pos, rep) + 1, l_pcpus()),
        prefix_at(s, rp_cpus(pos, rep), dec_seq(rep.system.cpus as nat)),
        digit_run_end(s, rp_cpus(pos, rep)) == rp_tslit(pos, rep),
        rp_tslit(pos, rep) > rp_cpus(pos, rep),
        dec_val(s.subrange(rp_cpus(pos, rep), rp_tslit(pos, rep))) == rep.system.cpus as nat,
        prefix_at(s, rp_tslit(pos, rep), l_ptests()),
        prefix_at(s, rp_tests(pos, rep), tests_chars(rep.tests@)),
        prefix_at(s, rp_totlit(pos, rep), l_ptotal()),
        prefix_at(s, rp_secs(pos, rep), dec_seq((rep.total_time_ns / 1_000_000_000) as nat)),
        digit_run_end(s, rp_secs(pos, rep)) == rp_dot(pos, rep),
        rp_dot(pos, rep) > rp_secs(pos, rep),
        dec_val(s.subrange(rp_secs(pos, rep), rp_dot(pos, rep))) == (rep.total_time_ns
            / 1_000_000_000) as nat,
        prefix_at(s, rp_dot(pos, rep), l_dot()),
        prefix_at(s, rp_frac(pos, rep), padded_dec((rep.total_time_ns % 1_000_000_000) as nat, 9)),
        digit_run_end(s, rp_frac(pos, rep)) == rp_close(pos, rep),
        dec_val(s.subrange(rp_frac(pos, rep), rp_close(pos, rep))) == (rep.total_time_ns
            % 1_000_000_000) as nat,
        prefix_at(s, rp_close(pos, rep), l_pend()),
        rp_lang(pos) == pos + l_plang().len(),
        rp_q1(pos, rep) == rp_lang(pos) + rep.language@.len(),
        rp_time(pos, rep) == rp_q1(pos, rep) + 1 + l_ptime().len(),
        rp_q2(pos, rep) == rp_time(pos, rep) + rep.timestamp@.len(),
        rp_ver(pos, rep) == rp_q2(pos, rep) + 1 + l_pver().len(),
        rp_q3(pos, rep) == rp_ver(pos, rep) + rep.rust_version@.len(),
        rp_os(pos, rep) == rp_q3(pos, rep) + 1 + l_psys().len(),
        rp_q4(pos, rep) == rp_os(pos, rep) + rep.system.os@.len(),
        rp_arch(pos, rep) == rp_q4(pos, rep) + 1 + l_parch().len(),
        rp_q5(pos, rep) == rp_arch(pos, rep) + rep.system.arch@.len(),
        rp_cpus(pos, rep) == rp_q5(pos, rep) + 1 + l_pcpus().len(),
        rp_tslit(pos, rep) == rp_cpus(pos, rep) + dec_seq(rep.system.cpus as nat).len(),
        rp_tests(pos, rep) == rp_tslit(pos, rep) + l_ptests().len(),
        rp_totlit(pos, rep) == rp_tests(pos, rep) + tests_chars(rep.tests@).len(),
        rp_secs(pos, rep) == rp_totlit(pos, rep) + l_ptotal().len(),
        rp_dot(pos, rep) == rp_secs(pos, rep) + dec_seq(
            (rep.total_time_ns / 1_000_000_000) as nat,
        ).len(),
        rp_frac(pos, rep) == rp_dot(pos, rep) + 1,
        rp_close(pos, rep) == rp_frac(pos, rep) + 9,
        rp_end(pos, rep) == rp_close(pos, rep) + l_pend().len(),
        rp_end(pos, rep) == pos + crate::json::report_chars(rep).len(),
        rp_end(pos, rep) <= s.len(),
{
    reveal(rp_lang);
    reveal(rp_q1);
    reveal(rp_time);
    reveal(rp_q2);
    reveal(rp_ver);
    reveal(rp_q3);
    reveal(rp_os);
    reveal(rp_q4);
    reveal(rp_arch);
    reveal(rp_q5);
    reveal(rp_cpus);
    reveal(rp_tslit);
    reveal(rp_tests);
    reveal(rp_totlit);
    reveal(rp_secs);
    reveal(rp_dot);
    reveal(rp_frac);
    reveal(rp_close);
    reveal(rp_end);
    reveal_strlit("\"");
    reveal_strlit(".");
    assert(l_q().len() == 1);
    assert(l_dot().len() == 1);
    let lang = rep.language@;
    let time = rep.timestamp@;
    let ver = rep.rust_version@;
    let os = rep.system.os@;
    let arch = rep.system.arch@;
    let cpus = dec_seq(rep.system.cpus as nat);
    let tsc = tests_chars(rep.tests@);
    let sec = crate::json::seconds_chars(rep.total_time_ns as int);
    let x24 = l_plang() + lang + l_q() + l_ptime() + time + l_q() + l_pver() + ver + l_q()
        + l_psys() + os + l_q() + l_parch() + arch + l_q() + l_pcpus() + cpus + l_ptests() + tsc
        + l_ptotal();
    let x23 = l_plang() + lang + l_q() + l_ptime() + time + l_q() + l_pver() + ver + l_q()
        + l_psys() + os + l_q() + l_parch() + arch + l_q() + l_pcpus() + cpus + l_ptests() + tsc;
    let x22 = l_plang() + lang + l_q() + l_ptime() + time + l_q() + l_pver() + ver + l_q()
        + l_psys() + os + l_q() + l_parch() + arch + l_q() + l_pcpus() + cpus + l_ptests();
    let x21 = l_plang() + lang + l_q() + l_ptime() + time + l_q() + l_pver() + ver + l_q()
        + l_psys() + os + l_q() + l_parch() + arch + l_q() + l_pcpus() + cpus;
    let x20 = l_plang() + lang + l_q() + l_ptime() + time + l_q() + l_pver() + ver + l_q()
        + l_psys() + os + l_q() + l_parch() + arch + l_q() + l_pcpus();
    let x19 = l_plang() + lang + l_q() + l_ptime() + time + l_q() + l_pver() + ver + l_q()
        + l_psys() + os + l_q() + l_parch() + arch + l_q();
    let x18 = l_plang() + lang + l_q() + l_ptime() + time + l_q() + l_pver() + ver + l_q()
        + l_psys() + os + l_q() + l_parch() + arch;
    let x17 = l_plang() + lang + l_q() + l_ptime() + time + l_q() + l_pver() + ver + l_q()
        + l_psys() + os + l_q() + l_parch();
    let x16 = l_plang() + lang + l_q() + l_ptime() + time + l_q() + l_pver() + ver + l_q()
        + l_psys() + os + l_q();
    let x15 = l_plang() + lang + l_q() + l_ptime() + time + l_q() + l_pver() + ver + l_q()
        + l_psys() + os;
    let x14 = l_plang() + lang + l_q() + l_ptime() + time + l_q() + l_pver() + ver + l_q()
        + l_psys();
    let x13 = l_plang() + lang + l_q() + l_ptime() + time + l_q() + l_pver() + ver + l_q();
    let x12 = l_plang() + lang + l_q() + l_ptime() + time + l_q() + l_pver() + ver;
    let x11 = l_plang() + lang + l_q() + l_ptime() + time + l_q() + l_pver();
    let x10 = l_plang() + lang + l_q() + l_ptime() + time + l_q();
    let x9 = l_plang() + lang + l_q() + l_ptime() + time;
    let x8 = l_plang() + lang + l_q() + l_ptime();
    let x7 = l_plang() + lang + l_q();
    let x6 = l_plang() + lang;
    assert(crate::json::report_chars(rep) == x24 + sec + l_pend());
    lemma_prefix_split(s, pos, x24 + sec, l_pend());
    lemma_prefix_split(s, pos, x24, sec);
    lemma_prefix_split(s, pos, x23, l_ptotal());
    lemma_prefix_split(s, pos, x22, tsc);
    lemma_prefix_split(s, pos, x21, l_ptests());
    lemma_prefix_split(s, pos, x20, cpus);
    lemma_prefix_split(s, pos, x19, l_pcpus());
    lemma_prefix_split(s, pos, x18, l_q());
    lemma_prefix_split(s, pos, x17, arch);
    lemma_prefix_split(s, pos, x16, l_parch());
    lemma_prefix_split(s, pos, x15, l_q());
    lemma_prefix_split(s, pos, x14, os);
    lemma_prefix_split(s, pos, x13, l_psys());
    lemma_prefix_split(s, pos, x12, l_q());
    lemma_prefix_split(s, pos, x11, ver);
    lemma_prefix_split(s, pos, x10, l_pver());
    lemma_prefix_split(s, pos, x9, l_q());
    lemma_prefix_split(s, pos, x8, time);
    lemma_prefix_split(s, pos, x7, l_ptime());
    lemma_prefix_split(s, pos, x6, l_q());
    lemma_prefix_split(s, pos, l_plang(), lang);
    // the seconds text splits once more
    let sd = dec_seq((rep.total_time_ns / 1_000_000_000) as nat);
    let sf = padded_dec((rep.total_time_ns % 1_000_000_000) as nat, 9);
    assert(sec == sd + l_dot() + sf);
    lemma_prefix_split(s, pos + x24.len(), sd + l_dot(), sf);
    lemma_prefix_split(s, pos + x24.len(), sd, l_dot());
    lemma_padded_dec_val((rep.total_time_ns % 1_000_000_000) as nat, 9);
    // digit runs: cpus, whole seconds, fraction
    reveal_strlit("\n  },\n  \"tests\": ");
    assert(s.subrange(rp_tslit(pos, rep), rp_tslit(pos, rep) + l_ptests().len())[0] == s[rp_tslit(
        pos,
        rep,
    )]);
    assert(s[rp_tslit(pos, rep)] == '\n');
    lemma_number_pin(s, rp_cpus(pos, rep), rep.system.cpus as nat, '\n');
    assert(s.subrange(rp_dot(pos, rep), rp_dot(pos, rep) + 1)[0] == s[rp_dot(pos, rep)]);
    assert(s[rp_dot(pos, rep)] == '.');
    lemma_number_pin(s, rp_secs(pos, rep), (rep.total_time_ns / 1_000_000_000) as nat, '.');
    reveal_strlit("\n}");
    assert(s.subrange(rp_close(pos, rep), rp_close(pos, rep) + l_pend().len())[0] == s[rp_close(
        pos,
        rep,
    )]);
    assert(s[rp_close(pos, rep)] == '\n');
    lemma_padded_pin(s, rp_frac(pos, rep), (rep.total_time_ns % 1_000_000_000) as nat, 9, '\n');
    assert(pow10(0) == 1);
    assert(pow10(1) == 10);
    assert(pow10(2) == 100);
    assert(pow10(3) == 1000);
    assert(pow10(4) == 10000);
    assert(pow10(5) == 100_000);
    assert(pow10(6) == 1_000_000);
    assert(pow10(7) == 10_000_000);
    assert(pow10(8) == 100_000_000);
    assert(pow10(9) == 1_000_000_000);
    assert(((rep.total_time_ns % 1_000_000_000) as nat) < pow10(9));
}

/// One quoted field of the report: where a parse stopped is exactly the
/// field's closing quote, and what it read is the field.
pub proof fn lemma_field_pin(s: Seq<char>, start: int, content: Seq<char>, p: int, got: Seq<char>)
    requires
        crate::json::json_safe(content),
        prefix_at(s, start, content),
        prefix_at(s, start + content.len(), l_q()),
        start < p <= s.len(),
        s[p - 1] == '"',
        got == s.subrange(start, p - 1),
        forall|k: int| start <= k < p - 1 ==> #[trigger] s[k] != '"',
    ensures
        p == start + content.len() + 1,
        got == content,
{
    reveal_strlit("\"");
    assert(s.subrange(start + content.len(), start + content.len() + 1)[0] == s[start
        + content.len()]);
    assert(s[start + content.len()] == '"');
    assert forall|k: int| 0 <= k < content.len() implies #[trigger] content[k] != '"' by {
        assert(crate::json::json_safe_char(content[k]));
    }
    lemma_quoted_pin(s, start, content, p, got);
}


/// Two parsed string fields and the position the parse stopped at.
struct TwoFields {
    a: String,
    b: String,
    at: usize,
}

/// Parses a rendered report's `language` and `timestamp` fields.
#[verifier::rlimit(100)]
#[verifier::spinoff_prover]
fn parse_report_part1(chars: &Vec<char>) -> (r: Option<TwoFields>)
    ensures
        r matches Some(h) ==> h.at <= chars@.len(),
        forall|rep: crate::report::BenchmarkReport|
            (crate::json::report_json_wf(rep) && chars@ == #[trigger] crate::json::report_chars(rep)) ==> (r matches Some(h) && h.a@ == rep.language@ && h.b@ == rep.timestamp@
                && h.at == rp_ver(0, rep)),
{
    let ghost cs = chars@;
    let pe1 = match eat_str(chars, 0, "{\n  \"language\": \"") {
        Option::Some(p) => p,
        Option::None => {
            proof {
                assert forall|rep: crate::report::BenchmarkReport|
                    (crate::json::report_json_wf(rep) && cs == #[trigger] crate::json::report_chars(rep)) implies false by {
                    lemma_whole_prefix(cs, crate::json::report_chars(rep));
                    lemma_report_shape(cs, 0, rep);

                }
            }
            return None;
        },
    };
    let q1 = match parse_quoted(chars, pe1) {
        Option::Some(t) => t,
        Option::None => {
            proof {
                assert forall|rep: crate::report::BenchmarkReport|
                    (crate::json::report_json_wf(rep) && cs == #[trigger] crate::json::report_chars(rep)) implies false by {
                    lemma_whole_prefix(cs, crate::json::report_chars(rep));
                    lemma_report_shape(cs, 0, rep);
                    reveal_strlit("\"");
                    assert(cs.subrange(rp_q1(0, rep), rp_q1(0, rep) + 1)[0] == cs[rp_q1(0, rep)]);
                    assert(cs[rp_q1(0, rep)] == '"');
                    assert(pe1 <= rp_q1(0, rep) < cs.len());
                }
            }
            return None;
        },
    };
    let pt1 = match eat_str(chars, q1.1, ",\n  \"timestamp\": \"") {
        Option::Some(p) => p,
        Option::None => {
            proof {
                assert forall|rep: crate::report::BenchmarkReport|
                    (crate::json::report_json_wf(rep) && cs == #[trigger] crate::json::report_chars(rep)) implies false by {
                    lemma_whole_prefix(cs, crate::json::report_chars(rep));
                    lemma_report_shape(cs, 0, rep);
                    lemma_field_pin(cs, rp_lang(0), rep.language@, q1.1 as int, q1.0@);
                }
            }
            return None;
        },
    };
    let q2 = match parse_quoted(chars, pt1) {
        Option::Some(t) => t,
        Option::None => {
            proof {
                assert forall|rep: crate::report::BenchmarkReport|
                    (crate::json::report_json_wf(rep) && cs == #[trigger] crate::json::report_chars(rep)) implies false by {
                    lemma_whole_prefix(cs, crate::json::report_chars(rep));
                    lemma_report_shape(cs, 0, rep);
                    lemma_field_pin(cs, rp_lang(0), rep.language@, q1.1 as int, q1.0@);
                    reveal_strlit("\"");
                    assert(pt1 as int == rp_time(0, rep));
                    assert(cs.subrange(rp_q2(0, rep), rp_q2(0, rep) + 1)[0] == cs[rp_q2(0, rep)]);
                    assert(cs[rp_q2(0, rep)] == '"');
                    assert(pt1 <= rp_q2(0, rep) < cs.len());
                }
            }
            return None;
        },
    };
    let pt2 = match eat_str(chars, q2.1, ",\n  \"rust_version\": \"") {
        Option::Some(p) => p,
        Option::None => {
            proof {
                assert forall|rep: crate::report::BenchmarkReport|
                    (crate::json::report_json_wf(rep) && cs == #[trigger] crate::json::report_chars(rep)) implies false by {
                    lemma_whole_prefix(cs, crate::json::report_chars(rep));
                    lemma_report_shape(cs, 0, rep);
                    lemma_field_pin(cs, rp_lang(0), rep.language@, q1.1 as int, q1.0@);
                    assert(pt1 as int == rp_time(0, rep));
                    lemma_field_pin(cs, rp_time(0, rep), rep.timestamp@, q2.1 as int, q2.0@);
                }
            }
            return None;
        },
    };
    let h = TwoFields { a: q1.0, b: q2.0, at: pt2 };
    proof {
        assert forall|rep: crate::report::BenchmarkReport|
            (crate::json::report_json_wf(rep) && cs == #[trigger] crate::json::report_chars(rep)) implies (h.a@ == rep.language@ && h.b@ == rep.timestamp@ && h.at == rp_ver(
            0,
            rep,
        )) by {
            lemma_whole_prefix(cs, crate::json::report_chars(rep));
            lemma_report_shape(cs, 0, rep);
            lemma_field_pin(cs, rp_lang(0), rep.language@, q1.1 as int, q1.0@);
            assert(pt1 as int == rp_time(0, rep));
            lemma_field_pin(cs, rp_time(0, rep), rep.timestamp@, q2.1 as int, q2.0@);
            assert(pt2 as int == rp_ver(0, rep));
        }
    }
    Some(h)
}

/// Parses a rendered report's `rust_version` and `os` fields.
#[verifier::rlimit(100)]
#[verifier::spinoff_prover]
fn parse_report_part2(chars: &Vec<char>, at: usize) -> (r: Option<TwoFields>)
    requires
        at <= chars@.len(),
        forall|rep: crate::report::BenchmarkReport| (crate::json::report_json_wf(rep) && chars@ == #[trigger] crate::json::report_chars(rep)) ==> at == rp_ver(0, rep),
    ensures
        r matches Some(h) ==> h.at <= chars@.len(),
        forall|rep: crate::report::BenchmarkReport|
            (crate::json::report_json_wf(rep) && chars@ == #[trigger] crate::json::report_chars(rep)) ==> (r matches Some(h) && h.a@ == rep.rust_version@ && h.b@ == rep.system.os@
                && h.at == rp_arch(0, rep)),
{
    let ghost cs = chars@;
    let q3 = match parse_quoted(chars, at) {
        Option::Some(t) => t,
        Option::None => {
            proof {
                assert forall|rep: crate::report::BenchmarkReport|
                    (crate::json::report_json_wf(rep) && cs == #[trigger] crate::json::report_chars(rep)) implies false by {
                    lemma_whole_prefix(cs, crate::json::report_chars(rep));
                    lemma_report_shape(cs, 0, rep);
                    reveal_strlit("\"");
                    assert(cs.subrange(rp_q3(0, rep), rp_q3(0, rep) + 1)[0] == cs[rp_q3(0, rep)]);
                    assert(cs[rp_q3(0, rep)] == '"');
                    assert(at <= rp_q3(0, rep) < cs.len());
                }
            }
            return None;
        },
    };
    let pt3 = match eat_str(chars, q3.1, ",\n  \"system\": {\n    \"os\": \"") {
        Option::Some(p) => p,
        Option::None => {
            proof {
                assert forall|rep: crate::report::BenchmarkReport|
                    (crate::json::report_json_wf(rep) && cs == #[trigger] crate::json::report_chars(rep)) implies false by {
                    lemma_whole_prefix(cs, crate::json::report_chars(rep));
                    lemma_report_shape(cs, 0, rep);
                    lemma_field_pin(cs, rp_ver(0, rep), rep.rust_version@, q3.1 as int, q3.0@);
                }
            }
            return None;
        },
    };
    let q4 = match parse_quoted(chars, pt3) {
        Option::Some(t) => t,
        Option::None => {
            proof {
                assert forall|rep: crate::report::BenchmarkReport|
                    (crate::json::report_json_wf(rep) && cs == #[trigger] crate::json::report_chars(rep)) implies false by {
                    lemma_whole_prefix(cs, crate::json::report_chars(rep));
                    lemma_report_shape(cs, 0, rep);
                    lemma_field_pin(cs, rp_ver(0, rep), rep.rust_version@, q3.1 as int, q3.0@);
                    reveal_strlit("\"");
                    assert(pt3 as int == rp_os(0, rep));
                    assert(cs.subrange(rp_q4(0, rep), rp_q4(0, rep) + 1)[0] == cs[rp_q4(0, rep)]);
                    assert(cs[rp_q4(0, rep)] == '"');
                    assert(pt3 <= rp_q4(0, rep) < cs.len());
                }
            }
            return None;
        },
    };
    let pt4 = match eat_str(chars, q4.1, ",\n    \"arch\": \"") {
        Option::Some(p) => p,
        Option::None => {
            proof {
                assert forall|rep: crate::report::BenchmarkReport|
                    (crate::json::report_json_wf(rep) && cs == #[trigger] crate::json::report_chars(rep)) implies false by {
                    lemma_whole_prefix(cs, crate::json::report_chars(rep));
                    lemma_report_shape(cs, 0, rep);
                    lemma_field_pin(cs, rp_ver(0, rep), rep.rust_version@, q3.1 as int, q3.0@);
                    assert(pt3 as int == rp_os(0, rep));
                    lemma_field_pin(cs, rp_os(0, rep), rep.system.os@, q4.1 as int, q4.0@);
                }
            }
            return None;
        },
    };
    let h = TwoFields { a: q3.0, b: q4.0, at: pt4 };
    proof {
        assert forall|rep: crate::report::BenchmarkReport|
            (crate::json::report_json_wf(rep) && cs == #[trigger] crate::json::report_chars(rep)) implies (h.a@ == rep.rust_version@ && h.b@ == rep.system.os@ && h.at
            == rp_arch(0, rep)) by {
            lemma_whole_prefix(cs, crate::json::report_chars(rep));
            lemma_report_shape(cs, 0, rep);
            lemma_field_pin(cs, rp_ver(0, rep), rep.rust_version@, q3.1 as int, q3.0@);
            assert(pt3 as int == rp_os(0, rep));
            lemma_field_pin(cs, rp_os(0, rep), rep.system.os@, q4.1 as int, q4.0@);
            assert(pt4 as int == rp_arch(0, rep));
        }
    }
    Some(h)
}

/// One parsed string field, one counter, and the stopping position.
struct ArchCpus {
    arch: String,
    cpus: u64,
    at: usize,
}

/// Parses a rendered report's `arch` and `cpus` fields, through the
/// `tests` key.
#[verifier::rlimit(100)]
#[verifier::spinoff_prover]
fn parse_report_part3(chars: &Vec<char>, at: usize) -> (r: Option<ArchCpus>)
    requires
        at <= chars@.len(),
        forall|rep: crate::report::BenchmarkReport| (crate::json::report_json_wf(rep) && chars@ == #[trigger] crate::json::report_chars(rep)) ==> at == rp_arch(0, rep),
    ensures
        r matches Some(h) ==> h.at <= chars@.len(),
        forall|rep: crate::report::BenchmarkReport|
            (crate::json::report_json_wf(rep) && chars@ == #[trigger] crate::json::report_chars(rep)) ==> (r matches Some(h) && h.arch@ == rep.system.arch@ && h.cpus
                == rep.system.cpus && h.at == rp_tests(0, rep)),
{
    let ghost cs = chars@;
    let q5 = match parse_quoted(chars, at) {
        Option::Some(t) => t,
        Option::None => {
            proof {
                assert forall|rep: crate::report::BenchmarkReport|
                    (crate::json::report_json_wf(rep) && cs == #[trigger] crate::json::report_chars(rep)) implies false by {
                    lemma_whole_prefix(cs, crate::json::report_chars(rep));
                    lemma_report_shape(cs, 0, rep);
                    reveal_strlit("\"");
                    assert(cs.subrange(rp_q5(0, rep), rp_q5(0, rep) + 1)[0] == cs[rp_q5(0, rep)]);
                    assert(cs[rp_q5(0, rep)] == '"');
                    assert(at <= rp_q5(0, rep) < cs.len());
                }
            }
            return None;
        },
    };
    let pt5 = match eat_str(chars, q5.1, ",\n    \"cpus\": ") {
        Option::Some(p) => p,
        Option::None => {
            proof {
                assert forall|rep: crate::report::BenchmarkReport|
                    (crate::json::report_json_wf(rep) && cs == #[trigger] crate::json::report_chars(rep)) implies false by {
                    lemma_whole_prefix(cs, crate::json::report_chars(rep));
                    lemma_report_shape(cs, 0, rep);
                    lemma_field_pin(cs, rp_arch(0, rep), rep.system.arch@, q5.1 as int, q5.0@);
                }
            }
            return None;
        },
    };
    let cu = match parse_u64(chars, pt5) {
        Option::Some(v) => v,
        Option::None => {
            proof {
                assert forall|rep: crate::report::BenchmarkReport|
                    (crate::json::report_json_wf(rep) && cs == #[trigger] crate::json::report_chars(rep)) implies false by {
                    lemma_whole_prefix(cs, crate::json::report_chars(rep));
                    lemma_report_shape(cs, 0, rep);
                    lemma_field_pin(cs, rp_arch(0, rep), rep.system.arch@, q5.1 as int, q5.0@);
                    assert(pt5 as int == rp_cpus(0, rep));
                }
            }
            return None;
        },
    };
    let pt6 = match eat_str(chars, cu.1, "\n  },\n  \"tests\": ") {
        Option::Some(p) => p,
        Option::None => {
            proof {
                assert forall|rep: crate::report::BenchmarkReport|
                    (crate::json::report_json_wf(rep) && cs == #[trigger] crate::json::report_chars(rep)) implies false by {
                    lemma_whole_prefix(cs, crate::json::report_chars(rep));
                    lemma_report_shape(cs, 0, rep);
                    lemma_field_pin(cs, rp_arch(0, rep), rep.system.arch@, q5.1 as int, q5.0@);
                    assert(pt5 as int == rp_cpus(0, rep));
                    assert(cu.1 as int == rp_tslit(0, rep));
                }
            }
            return None;
        },
    };
    let h = ArchCpus { arch: q5.0, cpus: cu.0, at: pt6 };
    proof {
        assert forall|rep: crate::report::BenchmarkReport|
            (crate::json::report_json_wf(rep) && cs == #[trigger] crate::json::report_chars(rep)) implies (h.arch@ == rep.system.arch@ && h.cpus == rep.system.cpus && h.at
            == rp_tests(0, rep)) by {
            lemma_whole_prefix(cs, crate::json::report_chars(rep));
            lemma_report_shape(cs, 0, rep);
            lemma_field_pin(cs, rp_arch(0, rep), rep.system.arch@, q5.1 as int, q5.0@);
            assert(pt5 as int == rp_cpus(0, rep));
            assert(cu.1 as int == rp_tslit(0, rep));
            assert(pt6 as int == rp_tests(0, rep));
        }
    }
    Some(h)
}


/// The time-number facts of a rendered report, on their own.
pub proof fn lemma_report_time_facts(s: Seq<char>, rep: crate::report::BenchmarkReport)
    requires
        prefix_at(s, 0, crate::json::report_chars(rep)),
    ensures
        prefix_at(s, rp_secs(0, rep), dec_seq((rep.total_time_ns / 1_000_000_000) as nat)),
        digit_run_end(s, rp_secs(0, rep)) == rp_dot(0, rep),
        rp_dot(0, rep) > rp_secs(0, rep),
        dec_val(s.subrange(rp_secs(0, rep), rp_dot(0, rep))) == (rep.total_time_ns
            / 1_000_000_000) as nat,
        prefix_at(s, rp_dot(0, rep), l_dot()),
        rp_frac(0, rep) == rp_dot(0, rep) + 1,
        digit_run_end(s, rp_frac(0, rep)) == rp_close(0, rep),
        rp_close(0, rep) == rp_frac(0, rep) + 9,
        dec_val(s.subrange(rp_frac(0, rep), rp_close(0, rep))) == (rep.total_time_ns
            % 1_000_000_000) as nat,
        prefix_at(s, rp_close(0, rep), l_pend()),
        rp_end(0, rep) == crate::json::report_chars(rep).len(),
        rp_end(0, rep) <= s.len(),
        rp_end(0, rep) == rp_close(0, rep) + l_pend().len(),
{
    lemma_report_shape(s, 0, rep);
}

/// The records of a rendered report's `tests` array.
#[verifier::rlimit(100)]
#[verifier::spinoff_prover]
fn parse_report_part4(chars: &Vec<char>, at0: usize) -> (r: Option<(Vec<BenchmarkResult>, usize)>)
    requires
        at0 <= chars@.len(),
        forall|rep: crate::report::BenchmarkReport| (crate::json::report_json_wf(rep) && chars@ == #[trigger] crate::json::report_chars(rep)) ==> at0 == rp_tests(0, rep),
    ensures
        r matches Some(h) ==> h.1 <= chars@.len(),
        forall|rep: crate::report::BenchmarkReport|
            (crate::json::report_json_wf(rep) && chars@ == #[trigger] crate::json::report_chars(rep)) ==> (r matches Some(h) && seq_like(h.0@, rep.tests@) && h.1 == rp_secs(0, rep)),
{
    let ghost cs = chars@;
    let pt6 = at0;
    let tv = match parse_tests(chars, pt6) {
        Option::Some(v) => v,
        Option::None => {
            proof {
                assert forall|rep: crate::report::BenchmarkReport|
                    (crate::json::report_json_wf(rep) && cs == #[trigger] crate::json::report_chars(rep)) implies false by {
                    lemma_whole_prefix(cs, crate::json::report_chars(rep));
                    lemma_report_shape(cs, 0, rep);
                    assert(results_json_wf(rep.tests@));
                    assert(prefix_at(cs, pt6 as int, tests_chars(rep.tests@)));
                }
            }
            return None;
        },
    };
    let pt7 = match eat_str(chars, tv.1, ",\n  \"total_time_seconds\": ") {
        Option::Some(p) => p,
        Option::None => {
            proof {
                assert forall|rep: crate::report::BenchmarkReport|
                    (crate::json::report_json_wf(rep) && cs == #[trigger] crate::json::report_chars(rep)) implies false by {
                    lemma_whole_prefix(cs, crate::json::report_chars(rep));
                    lemma_report_shape(cs, 0, rep);
                    assert(results_json_wf(rep.tests@));
                    assert(prefix_at(cs, pt6 as int, tests_chars(rep.tests@)));
                    assert(tv.1 as int == rp_totlit(0, rep));
                }
            }
            return None;
        },
    };
    proof {
        assert forall|rep: crate::report::BenchmarkReport|
            (crate::json::report_json_wf(rep) && cs == #[trigger] crate::json::report_chars(rep)) implies (seq_like(tv.0@, rep.tests@) && pt7 == rp_secs(0, rep)) by {
            lemma_whole_prefix(cs, crate::json::report_chars(rep));
            lemma_report_shape(cs, 0, rep);
            assert(results_json_wf(rep.tests@));
            assert(prefix_at(cs, pt6 as int, tests_chars(rep.tests@)));
            assert(tv.1 as int == rp_totlit(0, rep));
        }
    }
    Some((tv.0, pt7))
}

/// The split total-time number of a rendered report.
#[verifier::rlimit(100)]
#[verifier::spinoff_prover]
fn parse_report_part5(chars: &Vec<char>, at1: usize) -> (r: Option<(u64, u64, usize)>)
    requires
        at1 <= chars@.len(),
        forall|rep: crate::report::BenchmarkReport| (crate::json::report_json_wf(rep) && chars@ == #[trigger] crate::json::report_chars(rep)) ==> at1 == rp_secs(0, rep),
    ensures
        r matches Some(h) ==> h.2 <= chars@.len(),
        forall|rep: crate::report::BenchmarkReport|
            (crate::json::report_json_wf(rep) && chars@ == #[trigger] crate::json::report_chars(rep)) ==> (r matches Some(h) && h.0 as nat == (rep.total_time_ns
                / 1_000_000_000) as nat && h.1 as nat == (rep.total_time_ns
                % 1_000_000_000) as nat && h.2 == rp_close(0, rep) && prefix_at(
                chars@,
                rp_close(0, rep),
                l_pend(),
            ) && rp_end(0, rep) == chars@.len() && rp_end(0, rep) == rp_close(0, rep)
                + l_pend().len()),
{
    let ghost cs = chars@;
    let su = match parse_u64(chars, at1) {
        Option::Some(v) => v,
        Option::None => {
            proof {
                assert forall|rep: crate::report::BenchmarkReport|
                    (crate::json::report_json_wf(rep) && cs == #[trigger] crate::json::report_chars(rep)) implies false by {
                    lemma_whole_prefix(cs, crate::json::report_chars(rep));
                    lemma_report_time_facts(cs, rep);
                    assert(at1 as int == rp_secs(0, rep));
                }
            }
            return None;
        },
    };
    let pt8 = match eat_str(chars, su.1, ".") {
        Option::Some(p) => p,
        Option::None => {
            proof {
                assert forall|rep: crate::report::BenchmarkReport|
                    (crate::json::report_json_wf(rep) && cs == #[trigger] crate::json::report_chars(rep)) implies false by {
                    lemma_whole_prefix(cs, crate::json::report_chars(rep));
                    lemma_report_time_facts(cs, rep);
                    assert(at1 as int == rp_secs(0, rep));
                    assert(su.1 as int == rp_dot(0, rep));
                }
            }
            return None;
        },
    };
    let fu = match parse_u64(chars, pt8) {
        Option::Some(v) => v,
        Option::None => {
            proof {
                assert forall|rep: crate::report::BenchmarkReport|
                    (crate::json::report_json_wf(rep) && cs == #[trigger] crate::json::report_chars(rep)) implies false by {
                    lemma_whole_prefix(cs, crate::json::report_chars(rep));
                    lemma_report_time_facts(cs, rep);
                    assert(at1 as int == rp_secs(0, rep));
                    assert(su.1 as int == rp_dot(0, rep));
                    reveal_strlit(".");
                    assert(pt8 as int == rp_frac(0, rep));
                }
            }
            return None;
        },
    };
    proof {
        assert forall|rep: crate::report::BenchmarkReport|
            (crate::json::report_json_wf(rep) && cs == #[trigger] crate::json::report_chars(rep)) implies (su.0 as nat == (rep.total_time_ns / 1_000_000_000) as nat && fu.0
            as nat == (rep.total_time_ns % 1_000_000_000) as nat && fu.1 == rp_close(0, rep)
            && prefix_at(cs, rp_close(0, rep), l_pend()) && rp_end(0, rep) == cs.len() && rp_end(
            0,
            rep,
        ) == rp_close(0, rep) + l_pend().len()) by {
            lemma_whole_prefix(cs, crate::json::report_chars(rep));
            lemma_report_time_facts(cs, rep);
            assert(at1 as int == rp_secs(0, rep));
            assert(su.1 as int == rp_dot(0, rep));
            reveal_strlit(".");
            assert(pt8 as int == rp_frac(0, rep));
            assert(fu.1 as int == rp_close(0, rep));
        }
    }
    Some((su.0, fu.0, fu.1))
}

/// Parses a rendered report, strictly: the text must be exactly one
/// rendering. For the round trip: parsing the rendering of any report whose
/// records are well-formed and whose strings need no JSON escapes yields a
/// field-for-field equal report.
#[verifier::rlimit(100)]
#[verifier::spinoff_prover]
fn parse_report_chars(chars: &Vec<char>) -> (r: Option<crate::report::BenchmarkReport>)
    ensures
        forall|rep: crate::report::BenchmarkReport|
            (crate::json::report_json_wf(rep) && chars@ == #[trigger] crate::json::report_chars(rep)) ==> (r matches Some(rp) && report_like(rp, rep)),
{
    let ghost cs = chars@;
    let h1 = match parse_report_part1(chars) {
        Option::Some(h) => h,
        Option::None => {
            return None;
        },
    };
    let h2 = match parse_report_part2(chars, h1.at) {
        Option::Some(h) => h,
        Option::None => {
            return None;
        },
    };
    let h3 = match parse_report_part3(chars, h2.at) {
        Option::Some(h) => h,
        Option::None => {
            return None;
        },
    };
    let h4 = match parse_report_part4(chars, h3.at) {
        Option::Some(h) => h,
        Option::None => {
            return None;
        },
    };
    let h5 = match parse_report_part5(chars, h4.1) {
        Option::Some(h) => h,
        Option::None => {
            return None;
        },
    };
    if h5.0 > u64::MAX / 1_000_000_000 {
        proof {
            assert forall|rep: crate::report::BenchmarkReport|
                (crate::json::report_json_wf(rep) && cs == #[trigger] crate::json::report_chars(rep)) implies false by {
                lemma_fundamental_div_mod(rep.total_time_ns as int, 1_000_000_000);
                lemma_fundamental_div_mod(u64::MAX as int, 1_000_000_000);
                assert((rep.total_time_ns as int) / 1_000_000_000 <= (u64::MAX as int)
                    / 1_000_000_000) by (nonlinear_arith)
                    requires
                        rep.total_time_ns as int <= u64::MAX as int,
                ;
            }
        }
        return None;
    }
    proof {
        lemma_fundamental_div_mod(u64::MAX as int, 1_000_000_000);
        assert((h5.0 as int) * 1_000_000_000 <= (u64::MAX as int / 1_000_000_000)
            * 1_000_000_000) by (nonlinear_arith)
            requires
                h5.0 as int <= u64::MAX as int / 1_000_000_000,
        ;
    }
    let base = h5.0 * 1_000_000_000;
    if h5.1 > u64::MAX - base {
        proof {
            assert forall|rep: crate::report::BenchmarkReport|
                (crate::json::report_json_wf(rep) && cs == #[trigger] crate::json::report_chars(rep)) implies false by {
                lemma_fundamental_div_mod(rep.total_time_ns as int, 1_000_000_000);
            }
        }
        return None;
    }
    let total = base + h5.1;
    let pend = match eat_str(chars, h5.2, "\n}") {
        Option::Some(p) => p,
        Option::None => {
            proof {
                assert forall|rep: crate::report::BenchmarkReport|
                    (crate::json::report_json_wf(rep) && cs == #[trigger] crate::json::report_chars(rep)) implies false by {
                    assert(prefix_at(cs, h5.2 as int, l_pend()));
                }
            }
            return None;
        },
    };
    if pend != chars.len() {
        proof {
            assert forall|rep: crate::report::BenchmarkReport|
                (crate::json::report_json_wf(rep) && cs == #[trigger] crate::json::report_chars(rep)) implies false by {
                assert(pend as int == rp_end(0, rep));
            }
        }
        return None;
    }
    let report = crate::report::BenchmarkReport {
        language: h1.a,
        timestamp: h1.b,
        rust_version: h2.a,
        system: crate::report::SystemInfo { os: h2.b, arch: h3.arch, cpus: h3.cpus },
        tests: h4.0,
        total_time_ns: total,
    };
    proof {
        assert forall|rep: crate::report::BenchmarkReport|
            (crate::json::report_json_wf(rep) && cs == #[trigger] crate::json::report_chars(rep)) implies report_like(report, rep) by {
            lemma_fundamental_div_mod(rep.total_time_ns as int, 1_000_000_000);
            assert(total == rep.total_time_ns);
        }
    }
    Some(report)
}

/// Parses the report's JSON text back into a report. This is the round
/// trip: for every report whose records are well-formed and whose strings
/// need no JSON escapes, parsing [`crate::json::render_report`]'s output
/// yields a field-for-field equal report.
pub fn parse_report(text: &str) -> (r: Option<crate::report::BenchmarkReport>)
    ensures
        forall|rep: crate::report::BenchmarkReport|
            (crate::json::report_json_wf(rep) && text@ == #[trigger] crate::json::report_chars(
                rep,
            )) ==> (r matches Some(rp) && report_like(rp, rep)),
{
    let chars = str_chars(text);
    parse_report_chars(&chars)
}

} // verus!
