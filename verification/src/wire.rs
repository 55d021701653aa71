//! Reading multi-byte big-endian fields out of a raw byte buffer, shared by
//! the RTP and RTCP decoders.

use vstd::prelude::*;

verus! {

/// Big-endian 16-bit value formed by the two bytes of `s` starting at `i`.
pub open spec fn be16_at(s: Seq<u8>, i: int) -> u16 {
    (s[i] * 0x100 + s[i + 1]) as u16
}

/// Big-endian 32-bit value formed by the four bytes of `s` starting at `i`.
pub open spec fn be32_at(s: Seq<u8>, i: int) -> u32 {
    (s[i] * 0x1000000 + s[i + 1] * 0x10000 + s[i + 2] * 0x100 + s[i + 3]) as u32
}

/// Protocol version carried in the top two bits of the first header byte.
pub open spec fn version_of(b: Seq<u8>) -> u8 {
    b[0] / 0x40
}

/// Whether the padding flag (bit 5 of the first header byte) is set.
pub open spec fn padding_flagged(b: Seq<u8>) -> bool {
    (b[0] / 0x20) % 2 == 1
}

/// The 4-bit count in the low bits of the first header byte.
pub open spec fn count_of(b: Seq<u8>) -> u8 {
    b[0] % 0x10
}

/// Number of trailing padding bytes a packet declares: the last byte of the
/// buffer when the padding flag is set, zero otherwise.
pub open spec fn pad_len_of(b: Seq<u8>) -> int {
    if padding_flagged(b) {
        b[b.len() - 1] as int
    } else {
        0
    }
}

/// Read the big-endian 16-bit field at offset `i`.
pub fn read_be16(s: &[u8], i: usize) -> (r: u16)
    requires
        i + 2 <= s@.len(),
    ensures
        r == be16_at(s@, i as int),
{
    let b0 = s[i];
    let b1 = s[i + 1];
    (b0 as u16) * 0x100 + (b1 as u16)
}

/// Read the big-endian 32-bit field at offset `i`.
pub fn read_be32(s: &[u8], i: usize) -> (r: u32)
    requires
        i + 4 <= s@.len(),
    ensures
        r == be32_at(s@, i as int),
{
    let b0 = s[i];
    let b1 = s[i + 1];
    let b2 = s[i + 2];
    let b3 = s[i + 3];
    (b0 as u32) * 0x1000000 + (b1 as u32) * 0x10000 + (b2 as u32) * 0x100 + (b3 as u32)
}

} // verus!
