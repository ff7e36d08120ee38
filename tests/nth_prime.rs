use primes::finder::{checked_nth_prime, nth_prime};
use primes::startup::Startup;

fn is_prime_by_division(p: usize) -> bool {
    p > 1 && (2..p).all(|d| p % d != 0)
}

#[test]
fn first_prime_is_two() {
    assert_eq!(nth_prime(1), 2);
}

#[test]
fn second_prime_is_three() {
    assert_eq!(nth_prime(2), 3);
}

#[test]
fn fifth_prime_is_eleven() {
    assert_eq!(nth_prime(5), 11);
}

#[test]
fn tenth_prime_is_twenty_nine() {
    assert_eq!(nth_prime(10), 29);
}

#[test]
fn zero_gives_sentinel() {
    assert_eq!(nth_prime(0), 0);
}

#[test]
fn hundredth_prime() {
    assert_eq!(nth_prime(100), 541);
}

#[test]
fn first_primes_in_order() {
    let expected: Vec<usize> = vec![2, 3, 5, 7, 11, 13, 17, 19, 23, 29, 31, 37, 41, 43, 47];
    for (i, p) in expected.iter().enumerate() {
        assert_eq!(nth_prime(i + 1), *p);
    }
}

#[test]
fn results_are_prime() {
    for n in 1..=60 {
        assert!(is_prime_by_division(nth_prime(n)));
    }
}

#[test]
fn results_strictly_increase() {
    for n in 2..=60 {
        assert!(nth_prime(n) > nth_prime(n - 1));
    }
}

#[test]
fn repeated_calls_agree() {
    for n in 0..=30 {
        assert_eq!(nth_prime(n), nth_prime(n));
    }
    assert_eq!(nth_prime(25), 97);
    assert_eq!(nth_prime(25), 97);
}

#[test]
fn checked_matches_unchecked() {
    assert_eq!(checked_nth_prime(0), Some(0));
    assert_eq!(checked_nth_prime(1), Some(2));
    assert_eq!(checked_nth_prime(10), Some(29));
    for n in 0..=40 {
        assert_eq!(checked_nth_prime(n), Some(nth_prime(n)));
    }
}

#[test]
fn startup_runs_once() {
    let mut s = Startup::new();
    assert!(!s.initialized());
    assert!(s.initialize());
    assert!(s.initialized());
    assert!(!s.initialize());
    assert!(!s.initialize());
    assert!(s.initialized());
}
