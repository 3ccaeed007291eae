//! Byte-level building blocks of the file layout: alignment, zero padding and
//! little-endian integers.

use vstd::prelude::*;

verus! {

/// Every segment of the file is padded to a multiple of this many bytes.
pub const ALIGNMENT: usize = 8;

/// `n` zero bytes.
pub open spec fn zeros(n: nat) -> Seq<u8> {
    Seq::new(n, |i: int| 0u8)
}

/// The smallest multiple of the alignment that is at least `len`.
pub open spec fn aligned(len: nat) -> nat {
    ((len + 7) / 8 * 8) as nat
}

/// The number of zero bytes that bring `len` up to `aligned(len)`.
pub open spec fn padding(len: nat) -> nat {
    (aligned(len) - len) as nat
}

/// The four bytes of `x`, least significant first.
pub open spec fn le_bytes(x: u32) -> Seq<u8> {
    seq![
        (x % 256) as u8,
        (x / 256 % 256) as u8,
        (x / 65536 % 256) as u8,
        (x / 16777216 % 256) as u8,
    ]
}

/// `aligned(len)` is the least multiple of 8 that is not below `len`, and it
/// adds fewer than 8 bytes.
pub proof fn lemma_aligned(len: nat)
    ensures
        aligned(len) % 8 == 0,
        len <= aligned(len) < len + 8,
        len % 8 == 0 ==> aligned(len) == len,
        padding(len) < 8,
        len + padding(len) == aligned(len),
{
}

/// The number of padding bytes after a segment of `len` bytes.
pub fn padding_for(len: usize) -> (pad: usize)
    ensures
        pad == padding(len as nat),
        pad < 8,
{
    let rem: usize = len % 8;
    if rem == 0 {
        0
    } else {
        8 - rem
    }
}

/// Encodes `x` as four little-endian bytes.
pub fn to_le_bytes(x: u32) -> (bytes: [u8; 4])
    ensures
        bytes@ == le_bytes(x),
{
    assert(x & 0xff == x % 256) by (bit_vector);
    assert((x >> 8) & 0xff == x / 256 % 256) by (bit_vector);
    assert((x >> 16) & 0xff == x / 65536 % 256) by (bit_vector);
    assert((x >> 24) & 0xff == x / 16777216 % 256) by (bit_vector);
    let bytes: [u8; 4] = [
        (x & 0xff) as u8,
        ((x >> 8) & 0xff) as u8,
        ((x >> 16) & 0xff) as u8,
        ((x >> 24) & 0xff) as u8,
    ];
    assert(bytes@ =~= le_bytes(x));
    bytes
}

/// The integer is the sum of its little-endian bytes, each weighted by its
/// place.
pub proof fn lemma_le_bytes_value(x: u32)
    ensures
        le_bytes(x).len() == 4,
        x == le_bytes(x)[0] + 256 * le_bytes(x)[1] + 65536 * le_bytes(x)[2] + 16777216 * le_bytes(
            x,
        )[3],
{
    let b0 = x % 256;
    let b1 = x / 256 % 256;
    let b2 = x / 65536 % 256;
    let b3 = x / 16777216 % 256;
    assert(x == b0 + 256 * b1 + 65536 * b2 + 16777216 * b3) by {
        assert(x == (x % 256) + 256 * (x / 256));
        assert(x / 256 == (x / 256 % 256) + 256 * (x / 256 / 256));
        assert(x / 256 / 256 == x / 65536);
        assert(x / 65536 == (x / 65536 % 256) + 256 * (x / 65536 / 256));
        assert(x / 65536 / 256 == x / 16777216);
        assert(x / 16777216 < 256);
    }
}

/// A little-endian encoding determines the integer.
pub proof fn lemma_le_bytes_injective(x: u32, y: u32)
    requires
        le_bytes(x) == le_bytes(y),
    ensures
        x == y,
{
    lemma_le_bytes_value(x);
    lemma_le_bytes_value(y);
}

} // verus!
