//! Finding the n-th prime by trial division against the primes found so far.
use vstd::prelude::*;
use crate::math::{
    is_nth_prime,
    is_prime,
    lemma_nth_prime_value_is,
    lemma_prime_count_passes_prime,
    lemma_prime_divisor,
    lemma_divides_trans,
    nth_prime_value,
    prime_count,
};

verus! {

/// The primes found so far: exactly the primes below `current`, in ascending
/// order, each one at the position its rank gives.
pub open spec fn primes_below(primes: Seq<usize>, current: int) -> bool {
    &&& primes.len() == prime_count(current as nat)
    &&& forall|i: int| 0 <= i < primes.len() ==> is_prime(#[trigger] primes[i] as int)
    &&& forall|i: int|
        0 <= i < primes.len() ==> prime_count(#[trigger] primes[i] as nat) == i
    &&& forall|i: int| 0 <= i < primes.len() ==> #[trigger] primes[i] < current
    &&& forall|p: int|
        1 < p < current && is_prime(p) ==> exists|i: int|
            0 <= i < primes.len() && #[trigger] primes[i] as int == p
}

/// Whether one of `primes` divides `candidate`, testing them in order.
fn has_divisor_among(primes: &Vec<usize>, candidate: usize) -> (r: bool)
    requires
        forall|i: int| 0 <= i < primes@.len() ==> #[trigger] primes@[i] > 0,
    ensures
        r == exists|i: int| 0 <= i < primes@.len() && candidate % #[trigger] primes@[i] == 0,
{
    let mut j: usize = 0;
    while j < primes.len()
        invariant
            j <= primes@.len(),
            forall|i: int| 0 <= i < primes@.len() ==> #[trigger] primes@[i] > 0,
            forall|i: int| 0 <= i < j ==> candidate % #[trigger] primes@[i] != 0,
        decreases primes@.len() - j,
    {
        if candidate % primes[j] == 0 {
            return true;
        }
        j = j + 1;
    }
    false
}

/// A candidate that no prime below it divides is prime; one that such a prime
/// divides is not.
proof fn lemma_trial_division(primes: Seq<usize>, current: int, found: bool)
    requires
        current >= 2,
        primes_below(primes, current),
        found == exists|i: int| 0 <= i < primes.len() && current % #[trigger] primes[i] as int == 0,
    ensures
        is_prime(current) == !found,
{
    if found {
        let i = choose|i: int| 0 <= i < primes.len() && current % #[trigger] primes[i] as int == 0;
        assert(is_prime(primes[i] as int));
    } else if !is_prime(current) {
        let d = choose|d: int| 1 < d < current && #[trigger] (current % d) == 0;
        let q = lemma_prime_divisor(d);
        lemma_divides_trans(q, d, current);
        let i = choose|i: int| 0 <= i < primes.len() && #[trigger] primes[i] as int == q;
        assert(current % (primes[i] as int) == 0);
    }
}

/// The `n`-th prime (2 is the first), or `None` when it is not below
/// `usize::MAX`; for `n == 0`, `Some(0)`.
pub fn checked_nth_prime(n: usize) -> (r: Option<usize>)
    ensures
        r is None <==> prime_count(usize::MAX as nat) < n,
        r matches Some(p) ==> p == nth_prime_value(n as nat),
        n >= 1 ==> (r matches Some(p) ==> is_nth_prime(n as nat, p as int)),
{
    let mut primes: Vec<usize> = Vec::new();
    let mut current: usize = 2;
    assert(prime_count(2) == 0) by {
        reveal_with_fuel(prime_count, 3);
    }
    while primes.len() < n
        invariant
            2 <= current,
            primes@.len() <= n,
            primes_below(primes@, current as int),
        decreases usize::MAX - current,
    {
        if current == usize::MAX {
            return None;
        }
        let found = has_divisor_among(&primes, current);
        proof {
            lemma_trial_division(primes@, current as int, found);
        }
        let ghost before = primes@;
        if !found {
            primes.push(current);
        }
        current = current + 1;
        assert(primes_below(primes@, current as int)) by {
            let c = (current - 1) as int;
            assert(prime_count(current as nat) == prime_count(c as nat) + (if is_prime(c) {
                1nat
            } else {
                0nat
            }));
            assert forall|p: int| 1 < p < current && is_prime(p) implies exists|i: int|
                0 <= i < primes@.len() && #[trigger] primes@[i] as int == p by {
                if p == c {
                    assert(primes@[primes@.len() - 1] as int == p);
                } else {
                    let i = choose|i: int| 0 <= i < before.len() && #[trigger] before[i] as int == p;
                    assert(primes@[i] == before[i]);
                }
            }
        }
    }
    if n == 0 {
        return Some(0);
    }
    let p = primes[n - 1];
    proof {
        lemma_nth_prime_value_is(n as nat, p as int);
        lemma_prime_count_passes_prime(p as int, usize::MAX as nat);
    }
    Some(p)
}

/// The `n`-th prime, counting 2 as the first; 0 for `n == 0`, which has no
/// prime. The `n`-th prime must be below `usize::MAX`; `checked_nth_prime`
/// reports when it is not.
pub fn nth_prime(n: usize) -> (r: usize)
    requires
        n <= prime_count(usize::MAX as nat),
    ensures
        r == nth_prime_value(n as nat),
        n == 0 ==> r == 0,
        n >= 1 ==> is_nth_prime(n as nat, r as int),
{
    match checked_nth_prime(n) {
        Some(p) => p,
        None => 0,
    }
}

} // verus!
