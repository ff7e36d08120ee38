//! Laws of the n-th prime that relate its values at several indices.
use vstd::prelude::*;
use crate::math::{
    is_nth_prime,
    is_prime,
    lemma_nth_prime_exists,
    lemma_prime_count_monotone,
    nth_prime_value,
};

verus! {

/// For every `n >= 1`, the `n`-th prime is prime.
pub proof fn lemma_nth_prime_is_prime(n: nat)
    requires
        n >= 1,
    ensures
        is_prime(nth_prime_value(n)),
{
    lemma_nth_prime_exists(n);
}

/// For every `n >= 2`, the `n`-th prime is greater than the `(n - 1)`-th.
pub proof fn lemma_nth_prime_increasing(n: nat)
    requires
        n >= 2,
    ensures
        nth_prime_value(n) > nth_prime_value((n - 1) as nat),
{
    let a = nth_prime_value((n - 1) as nat);
    let b = nth_prime_value(n);
    lemma_nth_prime_exists((n - 1) as nat);
    lemma_nth_prime_exists(n);
    if b <= a {
        lemma_prime_count_monotone(b as nat, a as nat);
    }
}

/// The value for `n` is fixed by `n` alone: any two values that are both the
/// `n`-th prime are equal, so repeated calls with one `n` give one result.
pub proof fn lemma_nth_prime_deterministic(n: nat, a: int, b: int)
    requires
        is_nth_prime(n, a),
        is_nth_prime(n, b),
    ensures
        a == b,
        a == nth_prime_value(n),
{
    crate::math::lemma_nth_prime_value_is(n, a);
    crate::math::lemma_nth_prime_value_is(n, b);
}

} // verus!
