//! The n-th prime number, computed by trial division against the primes found
//! so far, with its contract and the laws it obeys proved by Verus.
use vstd::prelude::*;

pub mod finder;
pub mod laws;
pub mod math;
pub mod startup;

verus! {

} // verus!
