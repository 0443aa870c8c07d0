use vstd::prelude::*;
use vstd::bytes::{spec_u16_from_le_bytes, spec_u32_from_le_bytes, spec_u64_from_le_bytes};
use vstd::slice::slice_subrange;
use crate::error::FormatError;

verus! {

/// The little-endian `u16` stored at `at`.
pub open spec fn le16(b: Seq<u8>, at: int) -> u16 {
    spec_u16_from_le_bytes(b.subrange(at, at + 2))
}

/// The little-endian `u32` stored at `at`.
pub open spec fn le32(b: Seq<u8>, at: int) -> u32 {
    spec_u32_from_le_bytes(b.subrange(at, at + 4))
}

/// The little-endian `u64` stored at `at`.
pub open spec fn le64(b: Seq<u8>, at: int) -> u64 {
    spec_u64_from_le_bytes(b.subrange(at, at + 8))
}

/// Reads a little-endian `u64` from the start of `buf`.
pub fn u64_le(buf: &[u8]) -> (r: Result<u64, FormatError>)
    ensures
        buf@.len() < 8 ==> r == Err::<u64, FormatError>(FormatError::Truncated),
        buf@.len() >= 8 ==> r == Ok::<u64, FormatError>(le64(buf@, 0)),
{
    if buf.len() < 8 {
        return Err(FormatError::Truncated);
    }
    Ok(vstd::bytes::u64_from_le_bytes(slice_subrange(buf, 0, 8)))
}

/// Reads a little-endian `u32` from the start of `buf`.
pub fn u32_le(buf: &[u8]) -> (r: Result<u32, FormatError>)
    ensures
        buf@.len() < 4 ==> r == Err::<u32, FormatError>(FormatError::Truncated),
        buf@.len() >= 4 ==> r == Ok::<u32, FormatError>(le32(buf@, 0)),
{
    if buf.len() < 4 {
        return Err(FormatError::Truncated);
    }
    Ok(vstd::bytes::u32_from_le_bytes(slice_subrange(buf, 0, 4)))
}

/// Reads a little-endian `u16` from the start of `buf`.
pub fn u16_le(buf: &[u8]) -> (r: Result<u16, FormatError>)
    ensures
        buf@.len() < 2 ==> r == Err::<u16, FormatError>(FormatError::Truncated),
        buf@.len() >= 2 ==> r == Ok::<u16, FormatError>(le16(buf@, 0)),
{
    if buf.len() < 2 {
        return Err(FormatError::Truncated);
    }
    Ok(vstd::bytes::u16_from_le_bytes(slice_subrange(buf, 0, 2)))
}

/// Reads the little-endian `u16` at `at`; the caller has checked the bounds.
pub(crate) fn read16(b: &[u8], at: usize) -> (r: u16)
    requires
        at + 2 <= b.len(),
    ensures
        r == le16(b@, at as int),
{
    vstd::bytes::u16_from_le_bytes(slice_subrange(b, at, at + 2))
}

/// Reads the little-endian `u32` at `at`; the caller has checked the bounds.
pub(crate) fn read32(b: &[u8], at: usize) -> (r: u32)
    requires
        at + 4 <= b.len(),
    ensures
        r == le32(b@, at as int),
{
    vstd::bytes::u32_from_le_bytes(slice_subrange(b, at, at + 4))
}

/// Reads the little-endian `u64` at `at`; the caller has checked the bounds.
pub(crate) fn read64(b: &[u8], at: usize) -> (r: u64)
    requires
        at + 8 <= b.len(),
    ensures
        r == le64(b@, at as int),
{
    vstd::bytes::u64_from_le_bytes(slice_subrange(b, at, at + 8))
}

/// Copies the `N` bytes at `at` into an array.
pub(crate) fn read_array<const N: usize>(b: &[u8], at: usize) -> (r: [u8; N])
    requires
        at + N <= b.len(),
    ensures
        r@ == b@.subrange(at as int, at + N),
{
    let mut a: [u8; N] = [0u8; N];
    let mut i: usize = 0;
    while i < N
        invariant
            i <= N,
            at + N <= b.len(),
            a@.len() == N,
            forall|j: int| 0 <= j < i ==> a@[j] == b@[at + j],
        decreases N - i,
    {
        a[i] = b[at + i];
        i = i + 1;
    }
    assert(a@ =~= b@.subrange(at as int, at + N));
    a
}

} // verus!
