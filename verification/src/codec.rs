//! Shared basics: the error taxonomy, the canonical signature and terminator
//! tag, and the big-endian / little-endian 32-bit field codecs.

use vstd::prelude::*;

verus! {

/// Why an operation on the container format failed.
///
/// - `Decode`: a 4-byte type tag is not valid UTF-8 text, found at the point
///   the tag is inspected.
/// - `Truncated`: the byte source ran out in the middle of a field or a
///   payload, or before the signature was complete.
#[derive(Clone, Copy, Debug, PartialEq, Eq, Structural)]
pub enum PngError {
    Decode,
    Truncated,
}

/// The canonical 8-byte signature that opens every file of this format.
pub open spec fn spec_signature() -> Seq<u8> {
    seq![137u8, 80u8, 78u8, 71u8, 13u8, 10u8, 26u8, 10u8]
}

/// The 4-byte type tag (`"IEND"`) whose chunk terminates the chunk sequence.
pub open spec fn spec_iend_tag() -> Seq<u8> {
    seq![73u8, 69u8, 78u8, 68u8]
}

/// The value of a 4-byte field read as a big-endian 32-bit integer.
pub open spec fn be_u32(s: Seq<u8>) -> nat
    recommends
        s.len() == 4,
{
    (s[0] as nat) * 0x100_0000 + (s[1] as nat) * 0x1_0000 + (s[2] as nat) * 0x100 + (s[3] as nat)
}

/// The value of a 4-byte field read as a little-endian 32-bit integer.
pub open spec fn le_u32(s: Seq<u8>) -> nat
    recommends
        s.len() == 4,
{
    (s[3] as nat) * 0x100_0000 + (s[2] as nat) * 0x1_0000 + (s[1] as nat) * 0x100 + (s[0] as nat)
}

/// Decodes a 4-byte array as a big-endian 32-bit integer.
pub fn decode_be_u32(b: &[u8; 4]) -> (n: u32)
    ensures
        n as nat == be_u32(b@),
{
    (b[0] as u32) * 0x100_0000 + (b[1] as u32) * 0x1_0000 + (b[2] as u32) * 0x100 + (b[3] as u32)
}

/// Decodes a 4-byte array as a little-endian 32-bit integer.
pub fn decode_le_u32(b: &[u8; 4]) -> (n: u32)
    ensures
        n as nat == le_u32(b@),
{
    (b[3] as u32) * 0x100_0000 + (b[2] as u32) * 0x1_0000 + (b[1] as u32) * 0x100 + (b[0] as u32)
}

/// Encodes a 32-bit integer as 4 big-endian bytes; the inverse of [`be_u32`].
pub fn encode_be_u32(n: u32) -> (b: [u8; 4])
    ensures
        b@.len() == 4,
        be_u32(b@) == n,
{
    let b3: u8 = (n % 0x100) as u8;
    let m1: u32 = n / 0x100;
    let b2: u8 = (m1 % 0x100) as u8;
    let m2: u32 = m1 / 0x100;
    let b1: u8 = (m2 % 0x100) as u8;
    let b0: u8 = (m2 / 0x100) as u8;
    let r: [u8; 4] = [b0, b1, b2, b3];
    proof {
        assert(n == m1 * 0x100 + b3);
        assert(m1 == m2 * 0x100 + b2);
        assert(m2 == (b0 as u32) * 0x100 + b1);
        assert(be_u32(r@) == n);
    }
    r
}

} // verus!
