//! Generic RTCP packet codec: decoding a raw control datagram into a
//! validated header-plus-payload view, and constructing one from explicit
//! field values.
//!
//! The generic decoder locates the opaque payload by assuming one fixed
//! 24-byte report block beyond the blocks indicated by the header's count
//! field; type-specific bodies (sender/receiver reports) are declared here
//! as data layouts only.

use vstd::prelude::*;

use crate::wire::{be16_at, count_of, pad_len_of, padding_flagged, read_be16, version_of};
use vstd::slice::{slice_subrange, slice_to_vec};

verus! {

/// Why a buffer was rejected by the RTCP decoder, carrying the offending
/// value.
#[derive(Debug)]
pub enum RtcpError {
    /// The buffer is shorter than the fixed 4-byte header.
    InvalidLen(usize),
    /// The version field is not 2.
    InvalidVersion(u8),
    /// The declared padding exceeds the bytes left after the report region.
    InvalidPadding(usize),
    /// The declared report count claims more bytes than the buffer holds.
    PacketTooShort(u8),
}

// Generic RTCP packet structure.
//  0                   1                   2                   3
//  0 1 2 3 4 5 6 7 8 9 0 1 2 3 4 5 6 7 8 9 0 1 2 3 4 5 6 7 8 9 0 1
// +-+-+-+-+-+-+-+-+-+-+-+-+-+-+-+-+-+-+-+-+-+-+-+-+-+-+-+-+-+-+-+-+
// |V=2|P|    C    |      PT       |             length            | header
// +-+-+-+-+-+-+-+-+-+-+-+-+-+-+-+-+-+-+-+-+-+-+-+-+-+-+-+-+-+-+-+-+
// :                               ...                             : data
// +-+-+-+-+-+-+-+-+-+-+-+-+-+-+-+-+-+-+-+-+-+-+-+-+-+-+-+-+-+-+-+-+
/// A validated view over one RTCP datagram: the generic header fields and
/// the opaque payload region that follows the report blocks.
#[derive(Debug, Clone, Eq, PartialEq)]
pub struct RtcpPacket {
    /// Report/subtype count from the low bits of the first byte.
    pub cc: u8,
    /// Packet type (200-204 defined), masked to 7 bits.
    pub payload_type: u8,
    /// The wire's 16-bit length field, carried opaquely.
    pub length: u16,
    /// The bytes between the report region and the padding.
    pub payload: Vec<u8>,
}

// Per-source report block (SSRC block) as it lies in an RTCP packet.
//  0                   1                   2                   3
//  0 1 2 3 4 5 6 7 8 9 0 1 2 3 4 5 6 7 8 9 0 1 2 3 4 5 6 7 8 9 0 1
// +=+=+=+=+=+=+=+=+=+=+=+=+=+=+=+=+=+=+=+=+=+=+=+=+=+=+=+=+=+=+=+=+
// |                 SSRC_1 (SSRC of first source)                 | report
// +-+-+-+-+-+-+-+-+-+-+-+-+-+-+-+-+-+-+-+-+-+-+-+-+-+-+-+-+-+-+-+-+ block
// | fraction lost |       cumulative number of packets lost       | 1
// +-+-+-+-+-+-+-+-+-+-+-+-+-+-+-+-+-+-+-+-+-+-+-+-+-+-+-+-+-+-+-+-+
// |           extended highest sequence number received           |
// +-+-+-+-+-+-+-+-+-+-+-+-+-+-+-+-+-+-+-+-+-+-+-+-+-+-+-+-+-+-+-+-+
// |                      interarrival jitter                      |
// +-+-+-+-+-+-+-+-+-+-+-+-+-+-+-+-+-+-+-+-+-+-+-+-+-+-+-+-+-+-+-+-+
// |                         last SR (LSR)                         |
// +-+-+-+-+-+-+-+-+-+-+-+-+-+-+-+-+-+-+-+-+-+-+-+-+-+-+-+-+-+-+-+-+
// |                   delay since last SR (DLSR)                  |
// +=+=+=+=+=+=+=+=+=+=+=+=+=+=+=+=+=+=+=+=+=+=+=+=+=+=+=+=+=+=+=+=+
/// Wire layout of a per-source reception-quality report block.
#[derive(Debug, Clone, Eq, PartialEq)]
pub struct SynSource {
    /// SSRC identifier.
    pub ssrc: u32,
    /// Fraction lost.
    pub f_lost: u8,
    /// Cumulative number of packets lost.
    pub p_lost: u32,
    /// Extended highest sequence number received.
    pub seqnum: u32,
    /// Interarrival jitter.
    pub jitter: u32,
    /// Last SR timestamp.
    pub last_sr: u32,
    /// Delay since last SR.
    pub delay: u32,
}

// Sender Report body: header, sender SSRC, sender info (NTP timestamp,
// RTP timestamp, packet and octet counts), then report blocks as above,
// then profile-specific extensions.
/// Wire layout of a Sender Report packet body.
#[derive(Debug, Clone, Eq, PartialEq)]
pub struct DataSR {
    /// SSRC of the sender.
    pub ssrc: u32,
    /// NTP timestamp.
    pub ntpts: u64,
    /// RTP timestamp.
    pub rtpts: u32,
    /// Sender's packet count.
    pub packets: u32,
    /// Sender's octet count.
    pub octets: u32,
    /// Report blocks.
    pub reports: Vec<SynSource>,
}

// Receiver Report body: header, sender SSRC, then report blocks as above,
// then profile-specific extensions.
/// Wire layout of a Receiver Report packet body.
#[derive(Debug, Clone, Eq, PartialEq)]
pub struct DataRR {
    /// SSRC of the sender.
    pub ssrc: u32,
    /// Report blocks.
    pub reports: Vec<SynSource>,
}

/// Typed RTCP packet bodies, keyed by the 8-bit payload type.
pub enum RtcpPayload {
    /// Sender Report (payload type 200).
    SR(DataRR),
    /// Receiver Report (payload type 201).
    RR(DataRR),
}

/// Offset of the opaque payload: the 4-byte header, one 24-byte block per
/// counted report, and one further fixed 24-byte block.
pub open spec fn payload_offset(b: Seq<u8>) -> int {
    4 + count_of(b) * 24 + 24
}

/// The error, if any, with which decoding the buffer `b` fails; the checks
/// run in this order and decoding stops at the first violation.
pub open spec fn decode_err(b: Seq<u8>) -> Option<RtcpError> {
    if b.len() < 4 {
        Some(RtcpError::InvalidLen(b.len() as usize))
    } else if version_of(b) != 2 {
        Some(RtcpError::InvalidVersion(version_of(b)))
    } else if payload_offset(b) > b.len() {
        Some(RtcpError::PacketTooShort(count_of(b)))
    } else if payload_offset(b) + pad_len_of(b) > b.len() {
        Some(RtcpError::InvalidPadding(pad_len_of(b) as usize))
    } else {
        None
    }
}

/// Version gate: a buffer long enough to pass the length check but whose
/// version field is not 2 is rejected as `InvalidVersion`, carrying the
/// actual two-bit value.
pub proof fn lemma_version_gate(b: Seq<u8>)
    requires
        b.len() >= 4,
        version_of(b) != 2,
    ensures
        decode_err(b) == Some(RtcpError::InvalidVersion(version_of(b))),
{
}

/// Padding exactness: once the length, version and report-count checks
/// pass, decoding fails with `InvalidPadding` carrying the declared count
/// exactly when the padding flag is set and the count exceeds the bytes
/// left behind the report region; otherwise decoding succeeds and the
/// payload leaves out exactly that many trailing bytes.
pub proof fn lemma_padding_exactness(b: Seq<u8>)
    requires
        b.len() >= 4,
        version_of(b) == 2,
        payload_offset(b) <= b.len(),
    ensures
        (padding_flagged(b) && pad_len_of(b) > b.len() - payload_offset(b)) <==> decode_err(b)
            == Some(RtcpError::InvalidPadding(pad_len_of(b) as usize)),
        decode_err(b) is None ==> b.subrange(payload_offset(b), b.len() - pad_len_of(b)).len()
            == b.len() - payload_offset(b) - pad_len_of(b),
{
}

impl RtcpPacket {
    /// The size of the fixed header, up to and including the length field.
    pub const HEADER_SIZE: usize = 4;

    /// Constructs a packet from a payload type and raw body bytes; the
    /// count is zero and the length field is the payload length, truncated
    /// to the wire's 16 bits.
    pub fn new(payload_type: u8, payload: Vec<u8>) -> (r: RtcpPacket)
        ensures
            r.cc == 0,
            r.payload_type == payload_type,
            r.length == payload@.len() as u16,
            r.payload@ == payload@,
    {
        let length = #[verifier::truncate] (payload.len() as u16);
        RtcpPacket { cc: 0, payload_type, length, payload }
    }

    /// Decodes a raw datagram into a validated generic RTCP packet view,
    /// or reports the first validation failure as in [`decode_err`].
    pub fn from_slice(slice: &[u8]) -> (r: Result<RtcpPacket, RtcpError>)
        ensures
            r is Err <==> decode_err(slice@) is Some,
            r matches Err(e) ==> decode_err(slice@) == Some(e),
            r matches Ok(p) ==> {
                &&& p.cc == count_of(slice@)
                &&& p.cc < 0x10
                &&& p.payload_type == slice@[1] % 0x80
                &&& p.length == be16_at(slice@, 2)
                &&& p.payload@ == slice@.subrange(
                    payload_offset(slice@),
                    slice@.len() - pad_len_of(slice@),
                )
            },
    {
        let slice_len = slice.len();
        if slice_len < RtcpPacket::HEADER_SIZE {
            return Err(RtcpError::InvalidLen(slice_len));
        }
        let b0 = slice[0];
        let version = b0 / 0x40;
        if version != 2 {
            return Err(RtcpError::InvalidVersion(version));
        }
        let cc = b0 % 0x10;
        let pad_flagged = (b0 / 0x20) % 2 == 1;
        let off = RtcpPacket::HEADER_SIZE + (cc as usize) * 24 + 24;

        if off > slice_len {
            return Err(RtcpError::PacketTooShort(cc));
        }
        let pad_len: usize = if pad_flagged {
            slice[slice_len - 1] as usize
        } else {
            0
        };
        if pad_len > slice_len - off {
            return Err(RtcpError::InvalidPadding(pad_len));
        }

        let payload = slice_to_vec(slice_subrange(slice, off, slice_len - pad_len));
        Ok(RtcpPacket {
            cc,
            payload_type: slice[1] % 0x80,
            length: read_be16(slice, 2),
            payload,
        })
    }
}

} // verus!
