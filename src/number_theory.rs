//! Fermat's little theorem, proved from Euclid's lemma and the binomial
//! theorem.

use crate::primes::is_prime;
use vstd::arithmetic::div_mod::{
    lemma_fundamental_div_mod,
    lemma_mod_multiples_basic,
    lemma_mod_multiples_vanish,
    lemma_mod_pos_bound,
    lemma_small_mod,
};
use vstd::arithmetic::power::{lemma0_pow, pow};
use vstd::prelude::*;

verus! {

/// A multiple of a positive `p` leaves no remainder.
proof fn lemma_multiple_mod(p: int, t: int)
    requires
        p > 0,
    ensures
        (p * t) % p == 0,
{
    lemma_mod_multiples_basic(t, p);
    assert(t * p == p * t) by (nonlinear_arith);
}

/// Euclid's lemma: a prime that divides `a * b`, with `a` in `[1, p)`,
/// divides `b`.
pub proof fn lemma_prime_divides_factor(p: int, a: int, b: int)
    requires
        is_prime(p),
        1 <= a < p,
        (a * b) % p == 0,
    ensures
        b % p == 0,
    decreases a,
{
    if a == 1 {
        assert(a * b == b) by (nonlinear_arith)
            requires
                a == 1,
        ;
    } else {
        let q = p / a;
        let r = p % a;
        lemma_fundamental_div_mod(p, a);
        lemma_mod_pos_bound(p, a);
        assert(r != 0);
        let k = (a * b) / p;
        lemma_fundamental_div_mod(a * b, p);
        assert(r * b == p * (b - q * k)) by (nonlinear_arith)
            requires
                p == a * q + r,
                a * b == p * k,
        ;
        lemma_multiple_mod(p, b - q * k);
        lemma_prime_divides_factor(p, r, b);
    }
}

/// The binomial coefficient `n` choose `k`, by Pascal's rule.
pub open spec fn binomial(n: nat, k: nat) -> nat
    decreases n,
{
    if k == 0 {
        1
    } else if n == 0 {
        0
    } else {
        binomial((n - 1) as nat, (k - 1) as nat) + binomial((n - 1) as nat, k)
    }
}

/// Choosing one element of `n` can be done in `n` ways.
proof fn lemma_binomial_one(n: nat)
    ensures
        binomial(n, 1) == n,
    decreases n,
{
    if n > 0 {
        lemma_binomial_one((n - 1) as nat);
        assert(binomial(n, 1) == binomial((n - 1) as nat, 0) + binomial((n - 1) as nat, 1));
    }
}

/// No subset is larger than the whole.
proof fn lemma_binomial_above(n: nat, k: nat)
    requires
        k > n,
    ensures
        binomial(n, k) == 0,
    decreases n,
{
    if n > 0 {
        lemma_binomial_above((n - 1) as nat, (k - 1) as nat);
        lemma_binomial_above((n - 1) as nat, k);
    }
}

/// Choosing all `n` elements can be done in one way.
proof fn lemma_binomial_all(n: nat)
    ensures
        binomial(n, n) == 1,
    decreases n,
{
    if n > 0 {
        lemma_binomial_all((n - 1) as nat);
        lemma_binomial_above((n - 1) as nat, n);
    }
}

/// The absorption identity `k * C(n, k) == n * C(n - 1, k - 1)`.
proof fn lemma_binomial_absorb(n: nat, k: nat)
    requires
        n >= 1,
        k >= 1,
    ensures
        k * binomial(n, k) == n * binomial((n - 1) as nat, (k - 1) as nat),
    decreases n,
{
    if k == 1 {
        lemma_binomial_one(n);
        assert(binomial((n - 1) as nat, 0) == 1);
        assert(1 * binomial(n, 1) == n * 1) by (nonlinear_arith)
            requires
                binomial(n, 1) == n,
        ;
    } else if n == 1 {
        lemma_binomial_above(1, k);
        lemma_binomial_above(0, (k - 1) as nat);
        assert(k * 0 == 1 * 0) by (nonlinear_arith);
    } else {
        lemma_binomial_absorb((n - 1) as nat, k);
        lemma_binomial_absorb((n - 1) as nat, (k - 1) as nat);
        let a = binomial((n - 1) as nat, (k - 1) as nat) as int;
        let b = binomial((n - 1) as nat, k) as int;
        let c = binomial((n - 2) as nat, (k - 2) as nat) as int;
        let d = binomial((n - 2) as nat, (k - 1) as nat) as int;
        assert(binomial(n, k) == a + b);
        assert(a == c + d);
        assert(k * (a + b) == n * a) by (nonlinear_arith)
            requires
                k * b == (n - 1) * d,
                (k - 1) * a == (n - 1) * c,
                a == c + d,
        ;
    }
}

/// A prime divides every binomial coefficient `C(p, k)` with `0 < k < p`.
pub proof fn lemma_prime_divides_binomial(p: nat, k: nat)
    requires
        is_prime(p as int),
        1 <= k < p,
    ensures
        (binomial(p, k) as int) % (p as int) == 0,
{
    lemma_binomial_absorb(p, k);
    lemma_multiple_mod(p as int, binomial((p - 1) as nat, (k - 1) as nat) as int);
    lemma_prime_divides_factor(p as int, k as int, binomial(p, k) as int);
}

/// The sum of `C(n, j) * x^j` over `j` in `[0, k)`.
pub open spec fn binomial_partial_sum(n: nat, x: int, k: nat) -> int
    decreases k,
{
    if k == 0 {
        0
    } else {
        binomial_partial_sum(n, x, (k - 1) as nat) + binomial(n, (k - 1) as nat) * pow(
            x,
            (k - 1) as nat,
        )
    }
}

/// Pascal's rule carried over to the partial sums.
proof fn lemma_partial_sum_pascal(n: nat, x: int, k: nat)
    ensures
        binomial_partial_sum(n + 1, x, k + 1) == x * binomial_partial_sum(n, x, k)
            + binomial_partial_sum(n, x, k + 1),
    decreases k,
{
    reveal(pow);
    if k == 0 {
        assert(binomial_partial_sum(n + 1, x, 0) == 0);
        assert(binomial_partial_sum(n + 1, x, 1) == binomial((n + 1) as nat, 0) * pow(x, 0));
        assert(binomial_partial_sum(n, x, 0) == 0);
        assert(binomial_partial_sum(n, x, 1) == binomial(n, 0) * pow(x, 0));
        assert(x * 0 == 0) by (nonlinear_arith);
    } else {
        lemma_partial_sum_pascal(n, x, (k - 1) as nat);
        let s_prev = binomial_partial_sum(n, x, (k - 1) as nat);
        let s_k = binomial_partial_sum(n, x, k);
        let s_next = binomial_partial_sum(n, x, k + 1);
        let big_k = binomial_partial_sum(n + 1, x, k);
        let big_next = binomial_partial_sum(n + 1, x, k + 1);
        let c_low = binomial(n, (k - 1) as nat) as int;
        let c_high = binomial(n, k) as int;
        let xk1 = pow(x, (k - 1) as nat);
        let xk = pow(x, k);
        assert(xk == x * xk1);
        assert(binomial(n + 1, k) == c_low + c_high);
        assert(big_next == big_k + (c_low + c_high) * xk);
        assert(s_k == s_prev + c_low * xk1);
        assert(s_next == s_k + c_high * xk);
        assert(big_next == x * s_k + s_next) by (nonlinear_arith)
            requires
                big_next == big_k + (c_low + c_high) * xk,
                big_k == x * s_prev + s_k,
                s_k == s_prev + c_low * xk1,
                s_next == s_k + c_high * xk,
                xk == x * xk1,
        ;
    }
}

/// The binomial theorem for `(x + 1)^n`.
pub proof fn lemma_binomial_theorem(n: nat, x: int)
    ensures
        pow(x + 1, n) == binomial_partial_sum(n, x, n + 1),
    decreases n,
{
    reveal(pow);
    if n == 0 {
        assert(binomial_partial_sum(0, x, 0) == 0);
        assert(binomial_partial_sum(0, x, 1) == binomial(0, 0) * pow(x, 0));
    } else {
        let m = (n - 1) as nat;
        lemma_binomial_theorem(m, x);
        lemma_partial_sum_pascal(m, x, m + 1);
        lemma_binomial_above(m, m + 1);
        let s = binomial_partial_sum(m, x, m + 1);
        assert(binomial_partial_sum(m, x, m + 2) == s + binomial(m, m + 1) * pow(x, m + 1));
        assert(binomial(m, m + 1) * pow(x, m + 1) == 0) by (nonlinear_arith)
            requires
                binomial(m, m + 1) == 0,
        ;
        assert(pow(x + 1, n) == (x + 1) * pow(x + 1, m));
        assert((x + 1) * s == x * s + s) by (nonlinear_arith);
    }
}

/// Modulo a prime `p`, the partial sums of `(x + 1)^p` up to `k <= p` are one.
proof fn lemma_partial_sum_mod_prime(p: nat, x: int, k: nat) -> (t: int)
    requires
        is_prime(p as int),
        1 <= k <= p,
    ensures
        binomial_partial_sum(p, x, k) == 1 + p * t,
    decreases k,
{
    reveal(pow);
    if k == 1 {
        assert(binomial_partial_sum(p, x, 0) == 0);
        assert(binomial_partial_sum(p, x, 1) == binomial(p, 0) * pow(x, 0));
        assert(p * 0 == 0) by (nonlinear_arith);
        0
    } else {
        let t0 = lemma_partial_sum_mod_prime(p, x, (k - 1) as nat);
        let j = (k - 1) as nat;
        lemma_prime_divides_binomial(p, j);
        let coef = binomial(p, j) as int;
        lemma_fundamental_div_mod(coef, p as int);
        let c = coef / (p as int);
        let xj = pow(x, j);
        assert(binomial_partial_sum(p, x, k) == 1 + p * t0 + coef * xj);
        assert(1 + p * t0 + coef * xj == 1 + p * (t0 + c * xj)) by (nonlinear_arith)
            requires
                coef == p * c,
        ;
        t0 + c * xj
    }
}

/// Modulo a prime `p`, `(x + 1)^p` is `x^p + 1`.
proof fn lemma_power_of_successor_mod_prime(p: nat, x: int) -> (t: int)
    requires
        is_prime(p as int),
    ensures
        pow(x + 1, p) == pow(x, p) + 1 + p * t,
{
    lemma_binomial_theorem(p, x);
    lemma_binomial_all(p);
    let t = lemma_partial_sum_mod_prime(p, x, p);
    assert(binomial_partial_sum(p, x, p + 1) == binomial_partial_sum(p, x, p) + binomial(p, p) * pow(x, p));
    assert(1 * pow(x, p) == pow(x, p)) by (nonlinear_arith);
    t
}

/// Modulo a prime `p`, every natural `a` satisfies `a^p == a`.
proof fn lemma_power_prime_mod_prime(p: nat, a: nat) -> (s: int)
    requires
        is_prime(p as int),
    ensures
        pow(a as int, p) == a + p * s,
    decreases a,
{
    if a == 0 {
        lemma0_pow(p);
        assert(p * 0 == 0) by (nonlinear_arith);
        0
    } else {
        let s0 = lemma_power_prime_mod_prime(p, (a - 1) as nat);
        let t = lemma_power_of_successor_mod_prime(p, a - 1);
        assert(p * s0 + p * t == p * (s0 + t)) by (nonlinear_arith);
        s0 + t
    }
}

/// Fermat's little theorem: for a prime `p` and `a` in `[1, p)`,
/// `a^(p - 1) mod p == 1`.
pub proof fn lemma_fermat_little(p: int, a: int)
    requires
        is_prime(p),
        1 <= a < p,
    ensures
        pow(a, (p - 1) as nat) % p == 1,
{
    let s = lemma_power_prime_mod_prime(p as nat, a as nat);
    let e = pow(a, (p - 1) as nat);
    reveal(pow);
    assert(pow(a, p as nat) == a * e);
    assert(a * (e - 1) == p * s) by (nonlinear_arith)
        requires
            a * e == a + p * s,
    ;
    lemma_multiple_mod(p, s);
    lemma_prime_divides_factor(p, a, e - 1);
    lemma_fundamental_div_mod(e - 1, p);
    lemma_mod_multiples_vanish((e - 1) / p, 1, p);
    lemma_small_mod(1, p as nat);
}

} // verus!
