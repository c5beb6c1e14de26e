//! Primality by trial division, and the prime count that the prime workload
//! reports.

use vstd::arithmetic::div_mod::{lemma_fundamental_div_mod, lemma_mod_multiples_basic};
use vstd::prelude::*;

verus! {

/// `n` is prime: at least 2, and no smaller value from 2 up divides it.
pub open spec fn is_prime_spec(n: int) -> bool {
    &&& n >= 2
    &&& forall|d: int| 2 <= d < n ==> #[trigger] (n % d) != 0
}

/// How many primes lie in `2..=limit`.
pub open spec fn prime_count(limit: int) -> int
    decreases limit,
{
    if limit < 2 {
        0
    } else {
        prime_count(limit - 1) + if is_prime_spec(limit) {
            1int
        } else {
            0int
        }
    }
}

/// A proper divisor `d` of `n` has a cofactor `n / d` that is itself a
/// proper divisor of `n`.
proof fn lemma_cofactor(n: int, d: int)
    requires
        2 <= d < n,
        n % d == 0,
    ensures
        n == d * (n / d),
        2 <= n / d < n,
        n % (n / d) == 0,
{
    lemma_fundamental_div_mod(n, d);
    let e = n / d;
    assert(n == d * e);
    assert(e >= 2) by (nonlinear_arith)
        requires
            n == d * e,
            2 <= d < n,
    ;
    assert(e < n) by (nonlinear_arith)
        requires
            n == d * e,
            d >= 2,
            e >= 2,
    ;
    lemma_mod_multiples_basic(d, e);
    assert((d * e) % e == 0);
}

/// Trial division up to the square root of `n`.
pub fn is_prime(n: u32) -> (r: bool)
    ensures
        r == is_prime_spec(n as int),
{
    if n < 2 {
        return false;
    }
    let mut i: u32 = 2;
    while i <= n / i
        invariant
            2 <= i,
            i as int <= n as int,
            n >= 2,
            forall|d: int| 2 <= d < i ==> #[trigger] ((n as int) % d) != 0,
        decreases n as int - i as int,
    {
        proof {
            lemma_fundamental_div_mod(n as int, i as int);
            assert((i as int) * (i as int) <= n as int) by (nonlinear_arith)
                requires
                    n as int == (i as int) * ((n as int) / (i as int)) + (n as int) % (i as int),
                    i as int <= (n as int) / (i as int),
                    0 <= (n as int) % (i as int),
                    i >= 2,
            ;
        }
        if n % i == 0 {
            proof {
                assert((i as int) < n as int) by (nonlinear_arith)
                    requires
                        (i as int) * (i as int) <= n as int,
                        i >= 2,
                ;
            }
            return false;
        }
        proof {
            assert((i as int) + 1 <= n as int) by (nonlinear_arith)
                requires
                    (i as int) * (i as int) <= n as int,
                    i >= 2,
            ;
        }
        i = i + 1;
    }
    proof {
        let ni = n as int;
        let ii = i as int;
        lemma_fundamental_div_mod(ni, ii);
        assert(ni < ii * ii) by (nonlinear_arith)
            requires
                ni == ii * (ni / ii) + ni % ii,
                ni / ii < ii,
                ni % ii < ii,
                0 <= ni % ii,
                ii >= 2,
        ;
        assert forall|d: int| 2 <= d < ni implies #[trigger] (ni % d) != 0 by {
            if d >= ii {
                if ni % d == 0 {
                    lemma_cofactor(ni, d);
                    let e = ni / d;
                    assert(e < ii) by (nonlinear_arith)
                        requires
                            ni == d * e,
                            ni < ii * ii,
                            d >= ii,
                            e >= 2,
                            ii >= 2,
                    ;
                    assert((ni % e) != 0);
                    assert(false);
                }
            }
        }
    }
    true
}

/// Counts the primes in `2..=limit` by trial division.
pub fn count_primes(limit: u32) -> (r: u32)
    ensures
        r == prime_count(limit as int),
        r <= limit,
{
    let mut count: u32 = 0;
    let mut i: u64 = 2;
    if limit < 2 {
        return 0;
    }
    while i <= limit as u64
        invariant
            2 <= i,
            i <= limit as u64 + 1,
            limit >= 2,
            count == prime_count(i as int - 1),
            count as int <= i as int - 2,
        decreases limit as int + 1 - i as int,
    {
        if is_prime(i as u32) {
            count = count + 1;
        }
        i = i + 1;
    }
    count
}

} // verus!
