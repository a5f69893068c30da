//! Prime numbers: the sieve of Eratosthenes, trial division and the Fermat
//! probabilistic primality test.

use crate::mod_exp::ModExp;
use crate::number_theory::lemma_fermat_little;
use rand::Rng;
use vstd::arithmetic::div_mod::{
    lemma_fundamental_div_mod,
    lemma_mod_add_multiples_vanish,
    lemma_mod_multiples_basic,
};
use vstd::arithmetic::power::pow;
use vstd::prelude::*;

verus! {

/// `n` is prime: it is at least two and no integer in `[2, n)` divides it.
pub open spec fn is_prime(n: int) -> bool {
    n >= 2 && forall|d: int| 2 <= d < n ==> #[trigger] (n % d) != 0
}

/// The primes in `[1, upto]`, in ascending order.
pub open spec fn primes_upto(upto: nat) -> Seq<int>
    decreases upto,
{
    if upto == 0 {
        Seq::empty()
    } else if is_prime(upto as int) {
        primes_upto((upto - 1) as nat).push(upto as int)
    } else {
        primes_upto((upto - 1) as nat)
    }
}

/// The values of a sequence of `usize`, as integers.
pub open spec fn as_ints(s: Seq<usize>) -> Seq<int> {
    s.map_values(|x: usize| x as int)
}

/// `v` survives sieving by every candidate factor below `p`: it is at least
/// two and no integer in `[2, p)` smaller than `v` divides it.
pub open spec fn survives_below(v: int, p: int) -> bool {
    v >= 2 && forall|d: int| 2 <= d < p && d < v ==> #[trigger] (v % d) != 0
}

/// Divisibility is transitive.
proof fn lemma_divides_transitive(v: int, p: int, d: int)
    requires
        d > 0,
        p > 0,
        p % d == 0,
        v % p == 0,
    ensures
        v % d == 0,
{
    lemma_fundamental_div_mod(v, p);
    lemma_fundamental_div_mod(p, d);
    let a = v / p;
    let b = p / d;
    assert(v == d * (b * a)) by (nonlinear_arith)
        requires
            v == p * a,
            p == d * b,
    ;
    lemma_mod_multiples_basic(b * a, d);
    assert(v % d == (b * a * d) % d) by (nonlinear_arith)
        requires
            v == d * (b * a),
    ;
}

/// A multiple of `p` below `m + p`, where `m` is a multiple of `p` too, is
/// at most `m`.
proof fn lemma_multiple_at_most(v: int, m: int, p: int)
    requires
        p > 0,
        v % p == 0,
        m % p == 0,
        v < m + p,
    ensures
        v <= m,
{
    lemma_fundamental_div_mod(v, p);
    lemma_fundamental_div_mod(m, p);
    let a = v / p;
    let b = m / p;
    assert(v <= m) by (nonlinear_arith)
        requires
            v == p * a,
            m == p * b,
            v < m + p,
            p > 0,
    ;
}

/// Returns the primes less than or equal to `upto`, in ascending order,
/// computed with the sieve of Eratosthenes.
pub fn generate(upto: usize) -> (r: Vec<usize>)
    ensures
        as_ints(r@) == primes_upto(upto as nat),
{
    // The flag at index `j` stands for the value `j + 1`.
    let mut flags: Vec<bool> = vec![true; upto];
    if upto > 0 {
        flags.set(0, false);
    }
    let mut k: usize = 1;
    while k < upto
        invariant
            k >= 1,
            flags.len() == upto,
            forall|j: int| 0 <= j < upto ==> #[trigger] flags@[j] == survives_below(j + 1, k + 1),
        decreases upto - k,
    {
        let p: usize = k + 1;
        if flags[k] {
            let ghost before = flags@;
            let mut m: usize = p;
            while m <= upto - p
                invariant
                    2 <= p <= m <= upto,
                    m % p == 0,
                    flags.len() == upto,
                    before.len() == upto,
                    forall|j: int|
                        0 <= j < upto ==> #[trigger] flags@[j] == (before[j] && !((j + 1) % (p as int)
                            == 0 && p < j + 1 <= m)),
                decreases upto - m,
            {
                proof {
                    lemma_mod_add_multiples_vanish(m as int, p as int);
                }
                let ghost last = m as int;
                m = m + p;
                flags.set(m - 1, false);
                assert forall|j: int| 0 <= j < upto implies #[trigger] flags@[j] == (before[j] && !((
                j + 1) % (p as int) == 0 && p < j + 1 <= m)) by {
                    if (j + 1) % (p as int) == 0 && last < j + 1 < m {
                        lemma_multiple_at_most(j + 1, last, p as int);
                    }
                }
            }
            assert forall|j: int| 0 <= j < upto implies #[trigger] flags@[j] == survives_below(
                j + 1,
                p + 1,
            ) by {
                if (j + 1) % (p as int) == 0 && p < j + 1 {
                    lemma_multiple_at_most(j + 1, m as int, p as int);
                }
            }
        } else {
            // `p` itself is composite, so a smaller factor of it has already
            // cleared every multiple of `p`.
            assert(!survives_below(p as int, p as int));
            assert forall|j: int| 0 <= j < upto implies #[trigger] flags@[j] == survives_below(
                j + 1,
                p + 1,
            ) by {
                if (j + 1) % (p as int) == 0 && p < j + 1 {
                    let d = choose|d: int| 2 <= d < p && #[trigger] ((p as int) % d) == 0;
                    lemma_divides_transitive(j + 1, p as int, d);
                }
            }
        }
        k = k + 1;
    }
    let mut primes: Vec<usize> = Vec::new();
    let mut j: usize = 0;
    while j < upto
        invariant
            j <= upto,
            flags.len() == upto,
            forall|i: int| 0 <= i < upto ==> #[trigger] flags@[i] == is_prime(i + 1),
            as_ints(primes@) == primes_upto(j as nat),
        decreases upto - j,
    {
        let ghost old_primes = primes@;
        if flags[j] {
            primes.push(j + 1);
            assert(as_ints(primes@) =~= as_ints(old_primes).push(j + 1));
        }
        j = j + 1;
    }
    primes
}

/// A divisor `e >= d` of `n` with `d * d > n` has a cofactor in `[2, d)`.
proof fn lemma_small_cofactor(n: int, e: int, d: int)
    requires
        2 <= d <= e < n,
        n % e == 0,
        d * d > n,
    ensures
        2 <= n / e < d,
        n % (n / e) == 0,
{
    lemma_fundamental_div_mod(n, e);
    let q = n / e;
    assert(2 <= q < d) by (nonlinear_arith)
        requires
            n == e * q,
            2 <= d <= e < n,
            d * d > n,
    ;
    lemma_mod_multiples_basic(e, q);
    assert(n == e * q);
}

/// Determines whether `n` is prime by trial division with every integer
/// from two up to the exact integer square root of `n`.
pub fn is_prime_trial(n: u64) -> (r: bool)
    ensures
        r == is_prime(n as int),
{
    if n <= 1 {
        return false;
    }
    let mut d: u64 = 2;
    while (d as u128) * (d as u128) <= n as u128
        invariant
            2 <= d <= n,
            d * d <= u128::MAX,
            forall|e: int| 2 <= e < d ==> #[trigger] ((n as int) % e) != 0,
        decreases n - d,
    {
        if n % d == 0 {
            assert(d < n) by (nonlinear_arith)
                requires
                    d * d <= n,
                    d >= 2,
            ;
            return false;
        }
        assert(d + 1 <= n) by (nonlinear_arith)
            requires
                d * d <= n,
                d >= 2,
        ;
        d = d + 1;
        assert(d * d <= u128::MAX) by (nonlinear_arith)
            requires
                d <= u64::MAX,
        ;
    }
    assert forall|e: int| 2 <= e < n implies #[trigger] ((n as int) % e) != 0 by {
        if e >= d && (n as int) % e == 0 {
            lemma_small_cofactor(n as int, e, d as int);
        }
    }
    true
}

/// The primes up to `upto` are exactly the primes in `[1, upto]`.
pub proof fn lemma_primes_upto_members(upto: nat, v: int)
    ensures
        primes_upto(upto).contains(v) <==> (1 <= v <= upto && is_prime(v)),
    decreases upto,
{
    if upto > 0 {
        lemma_primes_upto_members((upto - 1) as nat, v);
        let prev = primes_upto((upto - 1) as nat);
        if is_prime(upto as int) {
            assert(prev.push(upto as int)[prev.len() as int] == upto as int);
            if prev.push(upto as int).contains(v) && v != upto {
                let i = choose|i: int| 0 <= i < prev.len() + 1 && prev.push(upto as int)[i] == v;
                assert(prev[i] == v);
            }
            if prev.contains(v) {
                let i = choose|i: int| 0 <= i < prev.len() && prev[i] == v;
                assert(prev.push(upto as int)[i] == v);
            }
        }
    }
}

/// The primes up to `upto` are strictly increasing and lie in `[2, upto]`.
pub proof fn lemma_primes_upto_ascending(upto: nat)
    ensures
        forall|i: int, j: int|
            0 <= i < j < primes_upto(upto).len() ==> #[trigger] primes_upto(upto)[i]
                < #[trigger] primes_upto(upto)[j],
        forall|i: int|
            0 <= i < primes_upto(upto).len() ==> 2 <= #[trigger] primes_upto(upto)[i] <= upto,
    decreases upto,
{
    if upto > 0 {
        lemma_primes_upto_ascending((upto - 1) as nat);
        let prev = primes_upto((upto - 1) as nat);
        if is_prime(upto as int) {
            let cur = prev.push(upto as int);
            assert forall|i: int| 0 <= i < cur.len() implies 2 <= #[trigger] cur[i] <= upto by {
                if i < prev.len() {
                    assert(cur[i] == prev[i]);
                }
            }
            assert forall|i: int, j: int| 0 <= i < j < cur.len() implies #[trigger] cur[i]
                < #[trigger] cur[j] by {
                assert(cur[i] == prev[i]);
                if j < prev.len() {
                    assert(cur[j] == prev[j]);
                }
            }
        }
    }
}

/// Trial division and the sieve agree: a value no larger than the bound is
/// prime exactly when the sieve up to that bound lists it.
pub proof fn lemma_trial_division_agrees_with_sieve(n: u64, upto: usize)
    requires
        n <= upto,
    ensures
        is_prime(n as int) <==> primes_upto(upto as nat).contains(n as int),
{
    lemma_primes_upto_members(upto as nat, n as int);
}

/// The sieve has no hidden state: two runs with the same bound give the
/// same sequence.
pub proof fn lemma_generate_deterministic(upto: usize, first: Seq<usize>, second: Seq<usize>)
    requires
        as_ints(first) == primes_upto(upto as nat),
        as_ints(second) == primes_upto(upto as nat),
    ensures
        first == second,
{
    assert(first.len() == as_ints(first).len());
    assert forall|i: int| 0 <= i < first.len() implies first[i] == second[i] by {
        assert(as_ints(first)[i] == first[i] as int);
        assert(as_ints(second)[i] == second[i] as int);
    }
    assert(first =~= second);
}

/// `a` is no Fermat witness against `n`: `a^(n - 1) mod n == 1`.
pub open spec fn fermat_passes(n: int, a: int) -> bool {
    pow(a, (n - 1) as nat) % n == 1
}

/// Relies on rand's `thread_rng` and `Rng::gen_range`, which returns a
/// value of the closed range `[low, high]` and panics on an empty range.
#[verifier::external_body]
fn random_in_range(low: u64, high: u64) -> (r: u64)
    requires
        low <= high,
    ensures
        low <= r <= high,
{
    rand::thread_rng().gen_range(low..=high)
}

/// One round of the Fermat test: whether `witness^(n - 1) mod n` is one.
pub fn fermat_round(n: u64, witness: u64) -> (r: bool)
    requires
        n > 0,
    ensures
        r == fermat_passes(n as int, witness as int),
{
    assert((n - 1) * (n - 1) <= u128::MAX) by (nonlinear_arith)
        requires
            n <= u64::MAX,
            n > 0,
    ;
    let x = <u128 as ModExp>::mod_exp(witness as u128, (n - 1) as u128, n as u128);
    x == 1
}

/// The Fermat test with the witnesses given: below two is composite, two and
/// three are prime, and a larger `n` is probably prime when no witness
/// shows it composite.
pub fn fermat_test_with_witnesses(n: u64, witnesses: &Vec<u64>) -> (r: bool)
    ensures
        r == (n >= 2 && (n < 4 || forall|i: int|
            0 <= i < witnesses.len() ==> fermat_passes(n as int, #[trigger] witnesses@[i] as int))),
        is_prime(n as int) && (forall|i: int|
            0 <= i < witnesses.len() ==> 1 <= #[trigger] witnesses@[i] < n) ==> r,
{
    if n < 2 {
        return false;
    }
    if n < 4 {
        return true;
    }
    let mut i: usize = 0;
    while i < witnesses.len()
        invariant
            n >= 4,
            i <= witnesses.len(),
            forall|j: int| 0 <= j < i ==> fermat_passes(n as int, #[trigger] witnesses@[j] as int),
        decreases witnesses.len() - i,
    {
        if !fermat_round(n, witnesses[i]) {
            proof {
                if is_prime(n as int) && 1 <= witnesses@[i as int] < n {
                    lemma_fermat_little(n as int, witnesses@[i as int] as int);
                }
            }
            return false;
        }
        i = i + 1;
    }
    true
}

/// The Fermat probabilistic primality test with `repeats_count` rounds, each
/// with a witness drawn uniformly from `[2, n - 2]`.
///
/// A prime is always reported prime; a composite is reported prime only when
/// every drawn witness fails to show it composite.
pub fn fermat_primality_test(n: u64, repeats_count: u32) -> (r: bool)
    ensures
        n < 2 ==> !r,
        2 <= n < 4 ==> r,
        n >= 4 && repeats_count == 0 ==> r,
        is_prime(n as int) ==> r,
        n >= 4 && !r ==> exists|a: int| 2 <= a <= n - 2 && !#[trigger] fermat_passes(n as int, a),
        n >= 4 && repeats_count > 0 && r ==> exists|a: int|
            2 <= a <= n - 2 && #[trigger] fermat_passes(n as int, a),
{
    if n < 2 {
        return false;
    }
    if n < 4 {
        return true;
    }
    let mut i: u32 = 0;
    while i < repeats_count
        invariant
            n >= 4,
            i <= repeats_count,
            i > 0 ==> exists|a: int| 2 <= a <= n - 2 && #[trigger] fermat_passes(n as int, a),
        decreases repeats_count - i,
    {
        let witness = random_in_range(2, n - 2);
        if !fermat_round(n, witness) {
            proof {
                if is_prime(n as int) {
                    lemma_fermat_little(n as int, witness as int);
                }
            }
            return false;
        }
        i = i + 1;
    }
    true
}

} // verus!
