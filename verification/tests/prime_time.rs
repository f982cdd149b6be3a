//! Primality and the judgement of decoded "is prime" requests.

use protohackers::primes::is_prime;
use protohackers::primes::validate;

#[test]
fn check_prime() {
    assert!(is_prime(11));
    assert!(!is_prime(10));
}

#[test]
fn small_primes() {
    assert!(!is_prime(0));
    assert!(!is_prime(1));
    assert!(is_prime(2));
    assert!(is_prime(3));
    assert!(!is_prime(4));
    assert!(is_prime(97));
    assert!(!is_prime(91)); // 7 * 13
}

#[test]
fn prime_request_judgement() {
    assert_eq!(validate(b"isPrime", Some(123)), Ok(false));
    assert_eq!(validate(b"isPrime", Some(11)), Ok(true));
    // A number that does not fit a non-negative integer counts as not prime.
    assert_eq!(validate(b"isPrime", None), Ok(false));
    // Any other method is malformed.
    assert_eq!(validate(b"aaaa", Some(11)), Err(()));
}
