//! Largest prime strictly below a bound.
//!
//! `prev_prime(nbr)` returns the largest prime strictly less than `nbr`,
//! or `0` when no prime lies below `nbr` (that is, when `nbr <= 2`).
//! `is_prime` is the primality test the search rests on: trial division
//! by the odd numbers whose square does not exceed the candidate.

use vstd::prelude::*;

verus! {

use vstd::arithmetic::div_mod::lemma_fundamental_div_mod;
use vstd::arithmetic::div_mod::lemma_mod_mod;
use vstd::arithmetic::div_mod::lemma_mod_multiples_basic;

/// `f` divides `n` evenly.
pub open spec fn divides(f: int, n: int) -> bool {
    n % f == 0
}

/// A prime number: an integer greater than 1 with no divisor in `[2, n)`.
pub open spec fn is_prime_spec(n: int) -> bool {
    n >= 2 && forall|d: int| 2 <= d < n ==> !(#[trigger] divides(d, n))
}

/// Every divisor of an odd number is odd: an even divisor would make the
/// number itself even.
proof fn lemma_divisor_of_odd_is_odd(n: int, f: int)
    requires
        n >= 1,
        f >= 2,
        divides(f, n),
        n % 2 == 1,
    ensures
        f % 2 == 1,
{
    if f % 2 == 0 {
        let h = f / 2;
        lemma_fundamental_div_mod(f, 2);
        assert(f == 2 * h);
        lemma_mod_mod(n, 2, h);
        assert((n % (2 * h)) % 2 == n % 2);
        assert(false);
    }
}

/// An odd `n` that trial division cleared has no divisor `f` with
/// `f * f <= n` at all: such an `f` would be odd, at least 3, and below
/// `bound`, which the cleared range rules out.
proof fn lemma_no_cleared_factor(n: int, bound: int, f: int)
    requires
        n >= 3,
        n % 2 == 1,
        bound >= 1,
        n < bound * bound,
        forall|d: int| 3 <= d < bound && d % 2 == 1 ==> !(#[trigger] divides(d, n)),
        f >= 2,
        f * f <= n,
    ensures
        !divides(f, n),
{
    if divides(f, n) {
        lemma_divisor_of_odd_is_odd(n, f);
        assert(f >= 3);
        assert(f < bound) by (nonlinear_arith)
            requires
                f * f <= n,
                n < bound * bound,
                f >= 0,
                bound >= 1,
        ;
        assert(!divides(f, n));
    }
}

/// Completeness of trial division for odd numbers: if no odd `d` with
/// `3 <= d < bound` divides `n`, and `bound * bound > n`, then `n` is prime.
/// A composite `n == d * q` always yields a divisor no larger than its
/// square root, namely the smaller of `d` and `q`.
proof fn lemma_trial_division_complete(n: int, bound: int)
    requires
        n >= 3,
        n % 2 == 1,
        bound >= 1,
        n < bound * bound,
        forall|d: int| 3 <= d < bound && d % 2 == 1 ==> !(#[trigger] divides(d, n)),
    ensures
        is_prime_spec(n),
{
    assert forall|d: int| 2 <= d < n implies !(#[trigger] divides(d, n)) by {
        if divides(d, n) {
            let q = n / d;
            lemma_fundamental_div_mod(n, d);
            assert(n == d * q);
            assert(q >= 2) by (nonlinear_arith)
                requires
                    n == d * q,
                    2 <= d,
                    d < n,
            ;
            lemma_mod_multiples_basic(d, q);
            assert(divides(q, n));
            if d <= q {
                assert(d * d <= n) by (nonlinear_arith)
                    requires
                        n == d * q,
                        2 <= d,
                        d <= q,
                ;
                lemma_no_cleared_factor(n, bound, d);
            } else {
                assert(q * q <= n) by (nonlinear_arith)
                    requires
                        n == d * q,
                        2 <= q,
                        q <= d,
                ;
                lemma_no_cleared_factor(n, bound, q);
            }
        }
    }
}

/// Whether `i * i <= nbr`, decided without overflowing `u64`.
fn square_at_most(i: u64, nbr: u64) -> (r: bool)
    ensures
        r == (i as int * i as int <= nbr as int),
{
    match i.checked_mul(i) {
        Some(sq) => sq <= nbr,
        None => false,
    }
}

/// Decides whether `nbr` is prime. `0` and `1` are not prime, `2` is,
/// every other even number is not, and an odd `nbr` is divided by each odd
/// candidate whose square does not exceed `nbr`.
pub fn is_prime(nbr: u64) -> (r: bool)
    ensures
        r == is_prime_spec(nbr as int),
{
    if nbr < 2 {
        return false;
    }
    if nbr == 2 {
        return true;
    }
    if nbr % 2 == 0 {
        assert(divides(2, nbr as int));
        return false;
    }
    let mut i: u64 = 3;
    while square_at_most(i, nbr)
        invariant
            nbr >= 3,
            nbr % 2 == 1,
            i >= 3,
            i % 2 == 1,
            i <= nbr + 2,
            forall|d: int| 3 <= d < i && d % 2 == 1 ==> !(#[trigger] divides(d, nbr as int)),
        decreases nbr + 2 - i,
    {
        if nbr % i == 0 {
            assert(divides(i as int, nbr as int));
            assert(i < nbr) by (nonlinear_arith)
                requires
                    i >= 3,
                    i as int * i as int <= nbr as int,
            ;
            return false;
        }
        proof {
            assert(i <= nbr) by (nonlinear_arith)
                requires
                    i >= 3,
                    i as int * i as int <= nbr as int,
            ;
            assert(i as int + 2 <= u64::MAX as int) by (nonlinear_arith)
                requires
                    i >= 3,
                    i as int * i as int <= u64::MAX as int,
            ;
        }
        i = i + 2;
    }
    proof {
        lemma_trial_division_complete(nbr as int, i as int);
    }
    true
}

/// Returns the largest prime strictly less than `nbr`, or `0` when no prime
/// lies below `nbr`. A nonzero result comes exactly for `nbr > 2`, is itself
/// prime, and no prime lies strictly between the result and `nbr`.
pub fn prev_prime(nbr: u64) -> (r: u64)
    ensures
        r != 0 <==> nbr > 2,
        r != 0 ==> is_prime_spec(r as int),
        nbr > 2 ==> 2 <= r < nbr,
        forall|p: int| r < p < nbr ==> !(#[trigger] is_prime_spec(p)),
{
    let mut n: u64 = nbr;
    while n > 1
        invariant
            n <= nbr,
            forall|p: int| n <= p < nbr ==> !(#[trigger] is_prime_spec(p)),
        decreases n,
    {
        n = n - 1;
        if is_prime(n) {
            return n;
        }
    }
    proof {
        if nbr > 2 {
            assert(is_prime_spec(2));
            assert(false);
        }
    }
    0
}

} // verus!
