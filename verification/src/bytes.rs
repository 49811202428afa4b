//! Byte-level helpers: big-endian integers as they appear in the patch
//! stream, and comparison of byte runs.

use byteorder::{BigEndian, ByteOrder};
use vstd::prelude::*;

verus! {

/// The 16-bit value whose big-endian bytes are `hi`, `lo`.
pub open spec fn be_u16(hi: u8, lo: u8) -> nat {
    (hi * 256 + lo) as nat
}

/// The 24-bit value whose big-endian bytes are `hi`, `mid`, `lo`.
pub open spec fn be_u24(hi: u8, mid: u8, lo: u8) -> nat {
    (hi * 65536 + mid * 256 + lo) as nat
}

/// The two big-endian bytes of `n`, for `n` below 2^16.
pub open spec fn u16_be_bytes(n: nat) -> Seq<u8> {
    seq![(n / 256) as u8, (n % 256) as u8]
}

/// The three big-endian bytes of `n`, for `n` below 2^24.
pub open spec fn u24_be_bytes(n: nat) -> Seq<u8> {
    seq![(n / 65536) as u8, (n / 256 % 256) as u8, (n % 256) as u8]
}

/// Reads two bytes as a big-endian 16-bit value.
pub fn read_u16_be(hi: u8, lo: u8) -> (value: u16)
    ensures
        value == be_u16(hi, lo),
{
    (hi as u16) * 256 + (lo as u16)
}

/// Reads three bytes as a big-endian 24-bit value.
///
/// The work is done by `byteorder`'s `BigEndian::read_u24`, which is not
/// verified here. The contract records what that function is documented to
/// do: it reads the first three bytes it is given, most significant first,
/// into a `u32`. It panics only when given fewer than three bytes, which
/// the argument's type rules out.
#[verifier::external_body]
pub(crate) fn read_u24_be(bytes: &[u8; 3]) -> (value: u32)
    ensures
        value == be_u24(bytes@[0], bytes@[1], bytes@[2]),
{
    BigEndian::read_u24(bytes)
}

/// Whether two runs of bytes are the same, byte for byte.
pub fn same_bytes(left: &[u8], right: &[u8]) -> (same: bool)
    ensures
        same == (left@ == right@),
{
    if left.len() != right.len() {
        return false;
    }
    let mut i: usize = 0;
    while i < left.len()
        invariant
            i <= left@.len(),
            left@.len() == right@.len(),
            forall|j: int| 0 <= j < i ==> left@[j] == right@[j],
        decreases left@.len() - i,
    {
        if left[i] != right[i] {
            return false;
        }
        i += 1;
    }
    assert(left@ =~= right@);
    true
}

/// Splits a 16-bit value into its two big-endian bytes.
pub fn write_u16_be(n: u16) -> (bytes: [u8; 2])
    ensures
        bytes@ == u16_be_bytes(n as nat),
{
    let bytes = [(n / 256) as u8, (n % 256) as u8];
    bytes
}

/// Reading the bytes written for a value gives the value back.
pub proof fn lemma_u16_read_write(n: nat)
    requires
        n <= u16::MAX,
    ensures
        u16_be_bytes(n).len() == 2,
        be_u16(u16_be_bytes(n)[0], u16_be_bytes(n)[1]) == n,
{
}

/// Writing the value read from two bytes gives the bytes back.
pub proof fn lemma_u16_write_read(hi: u8, lo: u8)
    ensures
        be_u16(hi, lo) <= u16::MAX,
        u16_be_bytes(be_u16(hi, lo)) == seq![hi, lo],
{
}

/// Reading the bytes written for a value gives the value back.
pub proof fn lemma_u24_read_write(n: nat)
    requires
        n <= 0xFF_FFFF,
    ensures
        u24_be_bytes(n).len() == 3,
        be_u24(u24_be_bytes(n)[0], u24_be_bytes(n)[1], u24_be_bytes(n)[2]) == n,
{
}

/// Writing the value read from three bytes gives the bytes back.
pub proof fn lemma_u24_write_read(hi: u8, mid: u8, lo: u8)
    ensures
        be_u24(hi, mid, lo) <= 0xFF_FFFF,
        u24_be_bytes(be_u24(hi, mid, lo)) == seq![hi, mid, lo],
{
}

} // verus!
