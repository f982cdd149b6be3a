//! Primality testing for the "is prime" request service.
//!
//! The service answers one JSON request per line. Decoding the line is left
//! to the connection task; the decision on the decoded fields — the request
//! method and its number — is made here.

use vstd::prelude::*;

use crate::lines::bytes_eq;
use crate::lines::lit;
use crate::lines::lit_bytes;

verus! {

/// `n` is prime: at least 2 and with no divisor strictly between 1 and `n`.
pub open spec fn prime(n: int) -> bool {
    &&& n >= 2
    &&& forall|d: int| 2 <= d < n ==> #[trigger] (n % d) != 0
}

/// Decides whether `n` is prime by trial division.
pub fn is_prime(n: u64) -> (r: bool)
    ensures
        r == prime(n as int),
{
    if n < 2 {
        return false;
    }
    let mut d: u64 = 2;
    while d < n
        invariant
            2 <= d <= n,
            forall|e: int| 2 <= e < d ==> #[trigger] ((n as int) % e) != 0,
        decreases n - d,
    {
        if n % d == 0 {
            return false;
        }
        d += 1;
    }
    true
}

/// The only method the service accepts.
pub open spec fn prime_method() -> Seq<u8> {
    lit_bytes("isPrime"@)
}

/// Judges one decoded request: the method name and the request's number,
/// when it was a non-negative integer in range. Any method other than
/// `isPrime` is malformed (`Err`); a well-formed request is answered with
/// whether the number is prime, a number that is no `u64` counting as not
/// prime.
pub fn validate(method: &[u8], number: Option<u64>) -> (r: Result<bool, ()>)
    ensures
        method@ != prime_method() ==> r is Err,
        method@ == prime_method() ==> r is Ok,
        method@ == prime_method() && number is Some ==> r->Ok_0 == prime(number->0 as int),
        method@ == prime_method() && number is None ==> r->Ok_0 == false,
{
    proof {
        reveal_strlit("isPrime");
    }
    let expected = lit("isPrime");
    if !bytes_eq(method, expected.as_slice()) {
        return Err(());
    }
    match number {
        Some(n) => Ok(is_prime(n)),
        None => Ok(false),
    }
}

} // verus!
