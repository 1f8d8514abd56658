//! Byte-block helpers shared across the crate.

use vstd::prelude::*;

use crate::gf2;

verus! {

/// Returns a zeroed byte vector of the requested length.
pub fn zero_bytes(n: usize) -> (r: Vec<u8>)
    ensures
        r@.len() == n,
        forall|t: int| 0 <= t < n ==> r@[t] == 0u8,
{
    let out: Vec<u8> = vec![0u8; n];
    proof {
        assert forall|t: int| 0 <= t < n implies out@[t] == 0u8 by {
            assert(cloned::<u8>(0u8, out@[t]));
        }
    }
    out
}

/// Returns a fresh copy of a byte vector.
pub fn copy_bytes(src: &Vec<u8>) -> (r: Vec<u8>)
    ensures
        r@ == src@,
{
    vstd::slice::slice_to_vec(src.as_slice())
}

/// Returns a copy of the byte range `a..b` of a vector.
pub fn slice_range(src: &Vec<u8>, a: usize, b: usize) -> (r: Vec<u8>)
    requires
        a <= b <= src@.len(),
    ensures
        r@ == src@.subrange(a as int, b as int),
{
    vstd::slice::slice_to_vec(vstd::slice::slice_subrange(src.as_slice(), a, b))
}

/// Appends a copy of `src` to `dst`.
pub fn append_bytes(dst: &mut Vec<u8>, src: &Vec<u8>)
    ensures
        final(dst)@ == old(dst)@ + src@,
{
    dst.extend_from_slice(src.as_slice());
    proof {
        assert forall|i: int| 0 <= i < dst@.len() implies dst@[i] == (old(dst)@ + src@)[i] by {
            if i >= old(dst)@.len() {
                assert(cloned::<u8>(src@[i - old(dst)@.len()], dst@[i]));
            }
        }
        assert(dst@ =~= old(dst)@ + src@);
    }
}

/// XORs `src` into `dst`, byte by byte.
pub fn xor_in_place(dst: &mut Vec<u8>, src: &Vec<u8>)
    requires
        old(dst)@.len() == src@.len(),
    ensures
        final(dst)@ == gf2::bytes_xor(old(dst)@, src@),
{
    let n = dst.len();
    for i in 0..n
        invariant
            dst@.len() == n,
            src@.len() == n,
            forall|t: int| 0 <= t < i ==> dst@[t] == (old(dst)@[t] ^ src@[t]),
            forall|t: int| i <= t < n ==> dst@[t] == old(dst)@[t],
    {
        let x = dst[i] ^ src[i];
        dst.set(i, x);
    }
    proof {
        assert(dst@ =~= gf2::bytes_xor(old(dst)@, src@));
    }
}

} // verus!
