//! Shared helpers for the byte-line model.
//!
//! Every protocol message in this crate is a line of bytes; a `Vec<u8>` in
//! executable code is viewed as a `Seq<u8>`. ASCII string literals are turned
//! into byte vectors through `lit`, whose result is pinned to the literal's
//! character sequence.

use vstd::prelude::*;

verus! {

/// The byte sequence that an ASCII character sequence denotes.
pub open spec fn lit_bytes(s: Seq<char>) -> Seq<u8> {
    s.map_values(|c: char| c as u8)
}

/// The line feed byte that terminates every protocol line.
pub open spec fn nl() -> u8 {
    10
}

/// `t` with exactly one trailing line feed: one is appended unless the last
/// byte already is one.
pub open spec fn with_newline(t: Seq<u8>) -> Seq<u8> {
    if t.len() > 0 && t[t.len() - 1] == nl() {
        t
    } else {
        t.push(nl())
    }
}

/// Turns an ASCII string literal into its byte vector.
pub fn lit(s: &str) -> (r: Vec<u8>)
    requires
        vstd::string::is_ascii(s),
    ensures
        r@ == lit_bytes(s@),
{
    let b = s.as_bytes();
    proof {
        broadcast use vstd::string::is_ascii_spec_bytes;

        assert(b@ =~= lit_bytes(s@));
    }
    vstd::slice::slice_to_vec(b)
}

/// Byte-for-byte equality of two byte slices.
pub fn bytes_eq(a: &[u8], b: &[u8]) -> (r: bool)
    ensures
        r == (a@ == b@),
{
    if a.len() != b.len() {
        proof {
            assert(a@.len() != b@.len());
        }
        return false;
    }
    let mut i: usize = 0;
    while i < a.len()
        invariant
            0 <= i <= a@.len(),
            a@.len() == b@.len(),
            forall|j: int| 0 <= j < i ==> a@[j] == b@[j],
        decreases a@.len() - i,
    {
        if a[i] != b[i] {
            return false;
        }
        i += 1;
    }
    proof {
        assert(a@ =~= b@);
    }
    true
}

/// Appends every byte of `src` to `out`.
pub fn push_all(out: &mut Vec<u8>, src: &[u8])
    ensures
        final(out)@ == old(out)@ + src@,
{
    out.extend_from_slice(src);
}

} // verus!
