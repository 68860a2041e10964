//! Primality of 64-bit unsigned integers, decided by trial division.

use vstd::prelude::*;

verus! {

/// `d` divides `n` exactly.
pub open spec fn divides(d: nat, n: nat) -> bool {
    d > 0 && n % d == 0
}

/// `n` is a prime number: it is at least 2 and nothing strictly between 1 and
/// `n` divides it.
pub open spec fn prime(n: nat) -> bool {
    n >= 2 && forall|d: nat| 1 < d < n ==> !#[trigger] divides(d, n)
}

/// What trial division finds of `n`. Numbers below 2 fail, 2 passes and the
/// other even numbers fail. An odd number passes when no odd `d` from 3 up to
/// its square root divides it; the square root itself, where it is a whole
/// number, is among the divisors tried.
pub open spec fn trial_division(n: nat) -> bool {
    if n < 2 {
        false
    } else if n == 2 {
        true
    } else if n % 2 == 0 {
        false
    } else {
        forall|d: nat| 3 <= d && d % 2 == 1 && d * d <= n ==> !#[trigger] divides(d, n)
    }
}

/// A product of two factors, each greater than 1, is not prime.
pub proof fn lemma_product_not_prime(a: nat, b: nat)
    requires
        a > 1,
        b > 1,
    ensures
        !prime(a * b),
{
    assert((a * b) % a == 0 && a < a * b) by (nonlinear_arith)
        requires
            a > 1,
            b > 1,
    ;
    assert(divides(a, a * b));
}

/// A square of a number greater than 1 is not prime.
pub proof fn lemma_square_not_prime(d: nat)
    requires
        d > 1,
    ensures
        !prime(d * d),
{
    lemma_product_not_prime(d, d);
}

/// The only even prime is 2.
pub proof fn lemma_even_prime_is_two(n: nat)
    requires
        n % 2 == 0,
    ensures
        prime(n) <==> n == 2,
{
    if n > 2 {
        assert(divides(2, n));
    } else if n == 2 {
        assert forall|d: nat| 1 < d < n implies !#[trigger] divides(d, n) by {}
    }
}

/// A number with an even divisor is itself even.
proof fn lemma_even_divisor(k: nat, n: nat)
    requires
        divides(k, n),
        k % 2 == 0,
    ensures
        n % 2 == 0,
{
    let q = n / k;
    let h = k / 2;
    assert(n == k * q) by (nonlinear_arith)
        requires
            k > 0,
            n % k == 0,
            q == n / k,
    ;
    assert(n == 2 * (h * q)) by (nonlinear_arith)
        requires
            n == k * q,
            k == 2 * h,
    ;
}

/// A proper divisor `k` of `n` has a cofactor `q`: a second proper divisor
/// with `k * q == n`. One of the two is no greater than the square root of
/// `n`.
proof fn lemma_cofactor(k: nat, n: nat) -> (q: nat)
    requires
        divides(k, n),
        1 < k < n,
    ensures
        divides(q, n),
        1 < q < n,
        k * q == n,
        k * k <= n || q * q <= n,
{
    let q = n / k;
    assert(n == k * q) by (nonlinear_arith)
        requires
            0 < k,
            n % k == 0,
            q == n / k,
    ;
    assert(1 < q < n && n % q == 0) by (nonlinear_arith)
        requires
            n == k * q,
            1 < k < n,
    ;
    assert(k * k <= n || q * q <= n) by (nonlinear_arith)
        requires
            n == k * q,
    ;
    q
}

/// Trial division decides primality: it passes exactly the prime numbers.
pub proof fn lemma_trial_division_decides_primality(n: nat)
    ensures
        trial_division(n) == prime(n),
{
    if n < 2 {
    } else if n % 2 == 0 {
        lemma_even_prime_is_two(n);
    } else if trial_division(n) {
        assert forall|k: nat| 1 < k < n implies !#[trigger] divides(k, n) by {
            if divides(k, n) {
                let q = lemma_cofactor(k, n);
                if k % 2 == 0 {
                    lemma_even_divisor(k, n);
                }
                if q % 2 == 0 {
                    lemma_even_divisor(q, n);
                }
                // k and q are odd and at least 3, and trial division has tried
                // the smaller of them
                if k * k <= n {
                    assert(!divides(k, n));
                } else {
                    assert(!divides(q, n));
                }
            }
        }
    } else {
        let d = choose|d: nat| 3 <= d && d % 2 == 1 && d * d <= n && #[trigger] divides(d, n);
        assert(d < n) by (nonlinear_arith)
            requires
                3 <= d,
                d * d <= n,
        ;
    }
}

/// Decides whether `n` is prime.
///
/// Numbers below 2 are not prime, 2 is, and the other even numbers are not.
/// An odd `n` is divided by each odd `d` from 3 on while `d <= n / d`, that
/// is while `d * d <= n`, so the last divisor tried is the square root of `n`
/// where that is a whole odd number. `n` is prime exactly when none of them
/// divides it.
pub fn is_prime(n: u64) -> (r: bool)
    ensures
        r == prime(n as nat),
        r == trial_division(n as nat),
        n < 2 ==> !r,
        n % 2 == 0 ==> (r <==> n == 2),
        forall|a: nat, b: nat| a > 1 && b > 1 && #[trigger] (a * b) == n ==> !r,
{
    proof {
        lemma_trial_division_decides_primality(n as nat);
        assert forall|a: nat, b: nat| a > 1 && b > 1 && #[trigger] (a * b) == n implies !prime(
            n as nat,
        ) by {
            lemma_product_not_prime(a, b);
        }
    }
    if n < 2 {
        return false;
    }
    if n == 2 {
        return true;
    }
    if n % 2 == 0 {
        return false;
    }
    let mut d: u64 = 3;
    while d <= n / d
        invariant
            n >= 3,
            n % 2 == 1,
            d >= 3,
            d % 2 == 1,
            forall|k: nat| 3 <= k < d && k % 2 == 1 ==> !#[trigger] divides(k, n as nat),
        decreases n - d,
    {
        assert(n / d <= n / 3 && d * d <= n) by (nonlinear_arith)
            requires
                3 <= d <= n / d,
        ;
        if n % d == 0 {
            assert(divides(d as nat, n as nat));
            return false;
        }
        d = d + 2;
    }
    proof {
        assert forall|k: nat| 3 <= k && k % 2 == 1 && k * k <= n implies !#[trigger] divides(
            k,
            n as nat,
        ) by {
            assert(k < d) by (nonlinear_arith)
                requires
                    0 < d,
                    n / d < d,
                    k * k <= n,
            ;
        }
    }
    true
}

/// The answer of `is_prime` is a function of `n` alone: any two results that
/// its contract admits for the same `n` are equal.
pub proof fn lemma_is_prime_deterministic(n: u64, first: bool, second: bool)
    requires
        call_ensures(is_prime, (n,), first),
        call_ensures(is_prime, (n,), second),
    ensures
        first == second,
{
}

} // verus!
