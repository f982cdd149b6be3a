//! Display-name validation for the chat room.
//!
//! A candidate name (one line with the terminator already stripped) is
//! accepted exactly when it is between 1 and 32 bytes long and every byte is
//! an ASCII letter or digit.

use vstd::prelude::*;

verus! {

/// True when `b` is an ASCII digit (`'0'..='9'`), upper-case letter
/// (`'A'..='Z'`) or lower-case letter (`'a'..='z'`).
pub open spec fn is_alnum_byte(b: u8) -> bool {
    (48 <= b && b <= 57) || (65 <= b && b <= 90) || (97 <= b && b <= 122)
}

/// A display name is valid when it is non-empty, at most 32 bytes long and
/// made of ASCII letters and digits only.
pub open spec fn valid_name(name: Seq<u8>) -> bool {
    &&& 1 <= name.len()
    &&& name.len() <= 32
    &&& forall|i: int| 0 <= i < name.len() ==> is_alnum_byte(#[trigger] name[i])
}

/// Executable check for `is_alnum_byte`.
pub fn alnum_byte(b: u8) -> (r: bool)
    ensures
        r == is_alnum_byte(b),
{
    (48 <= b && b <= 57) || (65 <= b && b <= 90) || (97 <= b && b <= 122)
}

/// Decides whether `name` may join the room: accepted exactly when
/// `valid_name` holds of it.
pub fn name_is_valid(name: &[u8]) -> (r: bool)
    ensures
        r == valid_name(name@),
{
    if name.len() == 0 || name.len() > 32 {
        return false;
    }
    let mut i: usize = 0;
    while i < name.len()
        invariant
            0 <= i <= name@.len(),
            forall|j: int| 0 <= j < i ==> is_alnum_byte(#[trigger] name@[j]),
        decreases name@.len() - i,
    {
        if !alnum_byte(name[i]) {
            return false;
        }
        i += 1;
    }
    true
}

} // verus!
