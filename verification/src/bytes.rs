//! Little-endian byte helpers shared by the binary layouts.

use vstd::prelude::*;
use vstd::bytes::*;
use vstd::array::*;

verus! {

/// Copies a vector of exactly `N` bytes into an array.
pub fn vec_to_array<const N: usize>(v: &Vec<u8>) -> (a: [u8; N])
    requires
        v@.len() == N,
    ensures
        a@ == v@,
{
    let mut a = [0u8; N];
    let mut i: usize = 0;
    while i < N
        invariant
            i <= N,
            v@.len() == N,
            a@.len() == N,
            forall|j: int| 0 <= j < i ==> a@[j] == v@[j],
        decreases N - i,
    {
        a.set(i, v[i]);
        i = i + 1;
    }
    assert(a@ =~= v@);
    a
}

/// Appends the little-endian bytes of `x`.
pub fn push_u16_le(out: &mut Vec<u8>, x: u16)
    ensures
        final(out)@ == old(out)@ + spec_u16_to_le_bytes(x),
{
    let mut b = u16_to_le_bytes(x);
    out.append(&mut b);
}

/// Appends the little-endian bytes of `x`.
pub fn push_u32_le(out: &mut Vec<u8>, x: u32)
    ensures
        final(out)@ == old(out)@ + spec_u32_to_le_bytes(x),
{
    let mut b = u32_to_le_bytes(x);
    out.append(&mut b);
}

/// Appends the little-endian bytes of `x`.
pub fn push_u64_le(out: &mut Vec<u8>, x: u64)
    ensures
        final(out)@ == old(out)@ + spec_u64_to_le_bytes(x),
{
    let mut b = u64_to_le_bytes(x);
    out.append(&mut b);
}

/// Appends a slice of bytes.
pub fn push_bytes(out: &mut Vec<u8>, bytes: &[u8])
    ensures
        final(out)@ == old(out)@ + bytes@,
{
    out.extend_from_slice(bytes);
}

/// Reads the little-endian `u16` at `off`.
pub fn read_u16_le(s: &[u8], off: usize) -> (x: u16)
    requires
        off + 2 <= s.len(),
    ensures
        x == spec_u16_from_le_bytes(s@.subrange(off as int, off + 2)),
{
    u16_from_le_bytes(vstd::slice::slice_subrange(s, off, off + 2))
}

/// Reads the little-endian `u32` at `off`.
pub fn read_u32_le(s: &[u8], off: usize) -> (x: u32)
    requires
        off + 4 <= s.len(),
    ensures
        x == spec_u32_from_le_bytes(s@.subrange(off as int, off + 4)),
{
    u32_from_le_bytes(vstd::slice::slice_subrange(s, off, off + 4))
}

/// Reads the little-endian `u64` at `off`.
pub fn read_u64_le(s: &[u8], off: usize) -> (x: u64)
    requires
        off + 8 <= s.len(),
    ensures
        x == spec_u64_from_le_bytes(s@.subrange(off as int, off + 8)),
{
    u64_from_le_bytes(vstd::slice::slice_subrange(s, off, off + 8))
}

} // verus!
