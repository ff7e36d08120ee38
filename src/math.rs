//! Prime numbers as mathematical objects: primality, the count of primes below
//! a bound, the n-th prime, and the lemmas that relate them.
use vstd::prelude::*;
use vstd::arithmetic::div_mod::{
    lemma_add_mod_noop,
    lemma_fundamental_div_mod,
    lemma_mod_multiples_basic,
    lemma_small_mod,
};

verus! {

/// `p` is prime: greater than 1, and no integer strictly between 1 and `p`
/// divides it.
pub open spec fn is_prime(p: int) -> bool {
    &&& p > 1
    &&& forall|d: int| 1 < d < p ==> #[trigger] (p % d) != 0
}

/// The number of primes strictly below `m`.
pub open spec fn prime_count(m: nat) -> nat
    decreases m,
{
    if m == 0 {
        0
    } else {
        prime_count((m - 1) as nat) + (if is_prime(m - 1) { 1nat } else { 0nat })
    }
}

/// `p` is the `n`-th prime, counting 2 as the first.
pub open spec fn is_nth_prime(n: nat, p: int) -> bool {
    &&& n >= 1
    &&& is_prime(p)
    &&& prime_count(p as nat) + 1 == n
}

/// The `n`-th prime, counting 2 as the first; 0 for `n == 0`.
pub open spec fn nth_prime_value(n: nat) -> int {
    if n >= 1 && exists|p: int| is_nth_prime(n, p) {
        choose|p: int| is_nth_prime(n, p)
    } else {
        0
    }
}

/// `m!`
pub open spec fn factorial(m: nat) -> nat
    decreases m,
{
    if m == 0 {
        1
    } else {
        m * factorial((m - 1) as nat)
    }
}

/// Divisibility is transitive.
pub proof fn lemma_divides_trans(q: int, d: int, m: int)
    requires
        q > 0,
        d > 0,
        d % q == 0,
        m % d == 0,
    ensures
        m % q == 0,
{
    lemma_fundamental_div_mod(d, q);
    lemma_fundamental_div_mod(m, d);
    let j = d / q;
    let k = m / d;
    assert(m == q * (j * k)) by (nonlinear_arith)
        requires
            m == d * k,
            d == q * j,
    ;
    lemma_mod_multiples_basic(j * k, q);
    assert((j * k) * q == q * (j * k)) by (nonlinear_arith);
}

/// Every integer of at least 2 has a prime divisor no larger than itself.
pub proof fn lemma_prime_divisor(m: int) -> (q: int)
    requires
        m >= 2,
    ensures
        is_prime(q),
        q <= m,
        m % q == 0,
    decreases m,
{
    if is_prime(m) {
        lemma_mod_multiples_basic(1, m);
        m
    } else {
        let d = choose|d: int| 1 < d < m && #[trigger] (m % d) == 0;
        let q = lemma_prime_divisor(d);
        lemma_divides_trans(q, d, m);
        q
    }
}

/// `prime_count` never decreases.
pub proof fn lemma_prime_count_monotone(a: nat, b: nat)
    requires
        a <= b,
    ensures
        prime_count(a) <= prime_count(b),
    decreases b - a,
{
    if a < b {
        lemma_prime_count_monotone(a, (b - 1) as nat);
    }
}

/// Past a prime `p`, the count of primes below a bound exceeds the count below `p`.
pub proof fn lemma_prime_count_passes_prime(p: int, b: nat)
    requires
        is_prime(p),
        p < b,
    ensures
        prime_count(b) >= prime_count(p as nat) + 1,
{
    assert(prime_count((p + 1) as nat) == prime_count(p as nat) + 1);
    lemma_prime_count_monotone((p + 1) as nat, b);
}

/// Two primes with the same count of primes below them are equal.
pub proof fn lemma_same_rank_same_prime(a: int, b: int)
    requires
        is_prime(a),
        is_prime(b),
        prime_count(a as nat) == prime_count(b as nat),
    ensures
        a == b,
{
    if a < b {
        lemma_prime_count_passes_prime(a, b as nat);
    } else if b < a {
        lemma_prime_count_passes_prime(b, a as nat);
    }
}

/// A witness of the `n`-th prime is the value `nth_prime_value` gives.
pub proof fn lemma_nth_prime_value_is(n: nat, p: int)
    requires
        is_nth_prime(n, p),
    ensures
        nth_prime_value(n) == p,
{
    let c = choose|c: int| is_nth_prime(n, c);
    lemma_same_rank_same_prime(c, p);
}

/// Every integer from 1 to `m` divides `m!`.
pub proof fn lemma_factorial_divisible(m: nat, d: int)
    requires
        1 <= d <= m,
    ensures
        (factorial(m) as int) % d == 0,
        factorial(m) >= 1,
    decreases m,
{
    let f = factorial((m - 1) as nat);
    if d == m {
        if m > 1 {
            lemma_factorial_divisible((m - 1) as nat, 1);
        }
        lemma_mod_multiples_basic(f as int, d);
    } else {
        lemma_factorial_divisible((m - 1) as nat, d);
        lemma_mod_multiples_basic(m as int, f as int);
        lemma_divides_trans(d, f as int, (m * f) as int);
    }
    assert(m * f >= 1) by (nonlinear_arith)
        requires
            m >= 1,
            f >= 1,
    ;
}

/// There is a prime greater than any bound.
pub proof fn lemma_prime_above(m: nat) -> (q: int)
    ensures
        is_prime(q),
        q > m,
{
    if m == 0 {
        lemma_prime_divisor(2)
    } else {
        lemma_factorial_divisible(m, 1);
        let f = factorial(m) as int;
        let q = lemma_prime_divisor(f + 1);
        if q <= m {
            lemma_factorial_divisible(m, q);
            lemma_add_mod_noop(f, 1, q);
            lemma_small_mod(1, q as nat);
        }
        q
    }
}

/// The count of primes below a bound grows past every `k`.
pub proof fn lemma_prime_count_unbounded(k: nat) -> (m: nat)
    ensures
        prime_count(m) > k,
    decreases k,
{
    let below: nat = if k == 0 { 0 } else { lemma_prime_count_unbounded((k - 1) as nat) };
    let q = lemma_prime_above(below);
    lemma_prime_count_monotone(below, q as nat);
    lemma_prime_count_passes_prime(q, (q + 1) as nat);
    (q + 1) as nat
}

/// Below a bound that has more than `k` primes under it lies a prime with
/// exactly `k` primes under it.
pub proof fn lemma_prime_of_rank_below(m: nat, k: nat) -> (p: int)
    requires
        prime_count(m) > k,
    ensures
        is_prime(p),
        p < m,
        prime_count(p as nat) == k,
    decreases m,
{
    if prime_count((m - 1) as nat) > k {
        lemma_prime_of_rank_below((m - 1) as nat, k)
    } else {
        m - 1
    }
}

/// For every `n >= 1` there is an `n`-th prime.
pub proof fn lemma_nth_prime_exists(n: nat)
    requires
        n >= 1,
    ensures
        is_nth_prime(n, nth_prime_value(n)),
{
    let m = lemma_prime_count_unbounded((n - 1) as nat);
    let p = lemma_prime_of_rank_below(m, (n - 1) as nat);
    lemma_nth_prime_value_is(n, p);
}

} // verus!
