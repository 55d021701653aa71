//! RTP packet codec and packetizer: decoding a raw media datagram into a
//! validated header/payload view, constructing a packet from explicit field
//! values, encoding such a packet back to bytes, and slicing an encoded
//! frame into a stream of MTU-bounded packets with consecutive sequence
//! numbers.

use vstd::prelude::*;

use crate::wire::{
    be16_at, be32_at, count_of, pad_len_of, padding_flagged, read_be16, read_be32, version_of,
};
use vstd::slice::{slice_subrange, slice_to_vec};

verus! {

/// Why a buffer was rejected by the RTP decoder, carrying the offending
/// value.
#[derive(Debug)]
pub enum RtpError {
    /// The buffer is shorter than the fixed 12-byte header.
    InvalidLen(usize),
    /// The version field is not 2.
    InvalidVersion(u8),
    /// The declared CSRC count claims more bytes than the buffer holds.
    InvalidCSRCCount(u8),
    /// The extension flag is set but the 4-byte extension sub-header does
    /// not fit.
    MissingExtension,
    /// The declared extension body exceeds the remaining buffer.
    InvalidExtensionLength(usize),
    /// The declared padding exceeds the bytes left after the extension
    /// region.
    InvalidPadding(usize),
}

/// A validated view over one RTP datagram, or a packet built for sending.
#[derive(Debug, Clone, Eq, PartialEq)]
pub struct RtpPacket {
    /// CSRC count from the low bits of the first byte.
    pub cc: u8,
    /// Payload type, masked to 7 bits.
    pub payload_type: u8,
    /// Sequence number; consecutive packets of one source differ by one,
    /// wrapping modulo 2^16.
    pub seq_number: u16,
    /// Media timestamp, wrapping modulo 2^32.
    pub timestamp: u32,
    /// Synchronization source identifier.
    pub ssrc: u32,
    /// Contributing source identifiers, in contribution order.
    pub csrc: Vec<u32>,
    /// The optional header extension.
    pub extension: Option<RtpExtension>,
    /// The payload bytes: everything between the header regions and the
    /// padding.
    pub payload: Vec<u8>,
    /// Marker bit: the final packet of a frame.
    pub mark: bool,
}

/// An RTP header extension: a 16-bit profile-defined identifier and a body
/// whose length is a whole number of 32-bit words.
#[derive(Debug, Clone, Eq, PartialEq)]
pub struct RtpExtension {
    /// Profile-defined identifier from the extension sub-header.
    pub head: u16,
    /// Extension body; always a multiple of 4 bytes long.
    pub data: Vec<u8>,
}

/// Whether the extension flag (bit 4 of the first header byte) is set.
pub open spec fn extension_flagged(b: Seq<u8>) -> bool {
    (b[0] / 0x10) % 2 == 1
}

/// Marker bit: the top bit of the second header byte.
pub open spec fn marker_of(b: Seq<u8>) -> bool {
    b[1] / 0x80 == 1
}

/// Offset of the extension sub-header (or of the payload, when no
/// extension is present): the fixed header plus the CSRC list.
pub open spec fn ext_offset(b: Seq<u8>) -> int {
    12 + count_of(b) * 4
}

/// Total size of the extension block: the declared word count times 4,
/// plus the 4-byte sub-header. Meaningful only when the sub-header fits.
pub open spec fn ext_len_of(b: Seq<u8>) -> int {
    be16_at(b, ext_offset(b) + 2) * 4 + 4
}

/// Offset at which the payload begins: behind the CSRC list and, if the
/// extension flag is set, behind the extension block.
pub open spec fn payload_start(b: Seq<u8>) -> int {
    ext_offset(b) + if extension_flagged(b) {
        ext_len_of(b)
    } else {
        0
    }
}

/// The CSRC identifiers, read as big-endian 32-bit values behind the fixed
/// header.
pub open spec fn csrc_of(b: Seq<u8>) -> Seq<u32> {
    Seq::new(count_of(b) as nat, |k: int| be32_at(b, 12 + 4 * k))
}

/// The error, if any, with which decoding the buffer `b` fails; the checks
/// run in this order and decoding stops at the first violation.
pub open spec fn decode_err(b: Seq<u8>) -> Option<RtpError> {
    if b.len() < 12 {
        Some(RtpError::InvalidLen(b.len() as usize))
    } else if version_of(b) != 2 {
        Some(RtpError::InvalidVersion(version_of(b)))
    } else if ext_offset(b) > b.len() {
        Some(RtpError::InvalidCSRCCount(count_of(b)))
    } else if extension_flagged(b) && ext_offset(b) + 4 > b.len() {
        Some(RtpError::MissingExtension)
    } else if extension_flagged(b) && ext_offset(b) + ext_len_of(b) > b.len() {
        Some(RtpError::InvalidExtensionLength(ext_len_of(b) as usize))
    } else if payload_start(b) + pad_len_of(b) > b.len() {
        Some(RtpError::InvalidPadding(pad_len_of(b) as usize))
    } else {
        None
    }
}

/// The wire form of a packet that has no CSRC list, no extension and no
/// padding: the fixed 12-byte header followed by the payload bytes.
pub open spec fn fixed_header_encoding(
    mark: bool,
    payload_type: u8,
    seq_number: u16,
    timestamp: u32,
    ssrc: u32,
    payload: Seq<u8>,
) -> Seq<u8> {
    seq![
        0x80u8,
        ((if mark { 0x80int } else { 0int }) + payload_type) as u8,
        (seq_number / 0x100) as u8,
        (seq_number % 0x100) as u8,
        (timestamp / 0x1000000) as u8,
        ((timestamp / 0x10000) % 0x100) as u8,
        ((timestamp / 0x100) % 0x100) as u8,
        (timestamp % 0x100) as u8,
        (ssrc / 0x1000000) as u8,
        ((ssrc / 0x10000) % 0x100) as u8,
        ((ssrc / 0x100) % 0x100) as u8,
        (ssrc % 0x100) as u8,
    ] + payload
}

impl RtpPacket {
    /// The size of the fixed part of the header, up to and including the
    /// SSRC.
    pub const HEADER_SIZE: usize = 12;

    /// Fixed RTP protocol version.
    pub const RTP_VERSION: u8 = 2;

    /// The structural invariant of a packet view: the count matches the
    /// CSRC list and an extension body is a whole number of words.
    pub open spec fn wf(self) -> bool {
        &&& self.csrc@.len() == self.cc
        &&& self.cc < 0x10
        &&& (self.extension matches Some(e) ==> e.data@.len() % 4 == 0)
    }

    /// Constructs a packet from explicit field values, with no CSRC list,
    /// no extension and no padding; never fails.
    pub fn new(
        mark: bool,
        payload_type: u8,
        seq_number: u16,
        timestamp: u32,
        ssrc: u32,
        payload: Vec<u8>,
    ) -> (r: RtpPacket)
        ensures
            r.wf(),
            r.cc == 0,
            r.payload_type == payload_type,
            r.seq_number == seq_number,
            r.timestamp == timestamp,
            r.ssrc == ssrc,
            r.csrc@ == Seq::<u32>::empty(),
            r.extension is None,
            r.payload@ == payload@,
            r.mark == mark,
    {
        RtpPacket {
            cc: 0,
            payload_type,
            seq_number,
            timestamp,
            ssrc,
            csrc: Vec::new(),
            extension: None,
            payload,
            mark,
        }
    }

    /// Decodes a raw datagram into a validated RTP packet view, or reports
    /// the first validation failure as in [`decode_err`].
    pub fn from_slice(slice: &[u8]) -> (r: Result<RtpPacket, RtpError>)
        ensures
            r is Err <==> decode_err(slice@) is Some,
            r matches Err(e) ==> decode_err(slice@) == Some(e),
            r matches Ok(p) ==> {
                &&& p.wf()
                &&& p.cc == count_of(slice@)
                &&& p.mark == marker_of(slice@)
                &&& p.payload_type == slice@[1] % 0x80
                &&& p.seq_number == be16_at(slice@, 2)
                &&& p.timestamp == be32_at(slice@, 4)
                &&& p.ssrc == be32_at(slice@, 8)
                &&& p.csrc@ == csrc_of(slice@)
                &&& (p.extension is Some <==> extension_flagged(slice@))
                &&& (p.extension matches Some(e) ==> {
                    &&& e.head == be16_at(slice@, ext_offset(slice@))
                    &&& e.data@ == slice@.subrange(
                        ext_offset(slice@) + 4,
                        ext_offset(slice@) + ext_len_of(slice@),
                    )
                })
                &&& p.payload@ == slice@.subrange(
                    payload_start(slice@),
                    slice@.len() - pad_len_of(slice@),
                )
            },
    {
        let slice_len = slice.len();
        if slice_len < RtpPacket::HEADER_SIZE {
            return Err(RtpError::InvalidLen(slice_len));
        }
        let b0 = slice[0];
        let version = b0 / 0x40;
        if version != RtpPacket::RTP_VERSION {
            return Err(RtpError::InvalidVersion(version));
        }
        let cc = b0 % 0x10;
        let pad_flagged = (b0 / 0x20) % 2 == 1;
        let ext_flagged = (b0 / 0x10) % 2 == 1;
        let mut off = RtpPacket::HEADER_SIZE + (cc as usize) * 4;

        if off > slice_len {
            return Err(RtpError::InvalidCSRCCount(cc));
        }

        let mut csrc: Vec<u32> = Vec::new();
        for index in 0..cc as usize
            invariant
                csrc@.len() == index,
                forall|k: int| 0 <= k < index ==> csrc@[k] == be32_at(slice@, 12 + 4 * k),
                cc == count_of(slice@),
                cc < 0x10,
                12 + (cc as int) * 4 <= slice@.len(),
        {
            csrc.push(read_be32(slice, RtpPacket::HEADER_SIZE + 4 * index));
        }
        proof {
            assert(csrc@ =~= csrc_of(slice@));
        }

        let mut extension: Option<RtpExtension> = None;
        if ext_flagged {
            if off + 4 > slice_len {
                return Err(RtpError::MissingExtension);
            }
            let word_count = read_be16(slice, off + 2);
            let ext_len = (word_count as usize) * 4 + 4;
            if ext_len > slice_len - off {
                return Err(RtpError::InvalidExtensionLength(ext_len));
            }
            extension = Some(RtpExtension {
                head: read_be16(slice, off),
                data: slice_to_vec(slice_subrange(slice, off + 4, off + ext_len)),
            });
            off = off + ext_len;
        }

        let pad_len: usize = if pad_flagged {
            slice[slice_len - 1] as usize
        } else {
            0
        };
        if pad_len > slice_len - off {
            return Err(RtpError::InvalidPadding(pad_len));
        }

        Ok(RtpPacket {
            cc,
            payload_type: slice[1] % 0x80,
            seq_number: read_be16(slice, 2),
            timestamp: read_be32(slice, 4),
            ssrc: read_be32(slice, 8),
            csrc,
            extension,
            payload: slice_to_vec(slice_subrange(slice, off, slice_len - pad_len)),
            mark: slice[1] / 0x80 == 1,
        })
    }

    /// Encodes a packet that carries no CSRC list and no extension into its
    /// wire form: the fixed 12-byte header followed by the payload.
    pub fn to_bytes(&self) -> (r: Vec<u8>)
        requires
            self.cc == 0,
            self.extension is None,
            self.payload_type < 0x80,
        ensures
            r@ == fixed_header_encoding(
                self.mark,
                self.payload_type,
                self.seq_number,
                self.timestamp,
                self.ssrc,
                self.payload@,
            ),
    {
        let mut out: Vec<u8> = Vec::new();
        out.push(0x80);
        out.push(if self.mark { 0x80 + self.payload_type } else { self.payload_type });
        out.push((self.seq_number / 0x100) as u8);
        out.push((self.seq_number % 0x100) as u8);
        out.push((self.timestamp / 0x1000000) as u8);
        out.push(((self.timestamp / 0x10000) % 0x100) as u8);
        out.push(((self.timestamp / 0x100) % 0x100) as u8);
        out.push((self.timestamp % 0x100) as u8);
        out.push((self.ssrc / 0x1000000) as u8);
        out.push(((self.ssrc / 0x10000) % 0x100) as u8);
        out.push(((self.ssrc / 0x100) % 0x100) as u8);
        out.push((self.ssrc % 0x100) as u8);
        let ghost header = out@;
        for i in 0..self.payload.len()
            invariant
                out@ == header + self.payload@.subrange(0, i as int),
        {
            out.push(self.payload[i]);
            proof {
                assert(out@ =~= header + self.payload@.subrange(0, i + 1));
            }
        }
        proof {
            assert(self.payload@.subrange(0, self.payload@.len() as int) =~= self.payload@);
            assert(out@ =~= fixed_header_encoding(
                self.mark,
                self.payload_type,
                self.seq_number,
                self.timestamp,
                self.ssrc,
                self.payload@,
            ));
        }
        out
    }
}

/// The four big-endian bytes of a 32-bit value recompose to that value.
proof fn lemma_u32_from_bytes(x: u32)
    ensures
        (x / 0x1000000) * 0x1000000 + ((x / 0x10000) % 0x100) * 0x10000 + ((x / 0x100) % 0x100)
            * 0x100 + (x % 0x100) == x,
        x / 0x1000000 < 0x100,
{
    assert((x / 0x1000000) * 0x1000000 + ((x / 0x10000) % 0x100) * 0x10000 + ((x / 0x100) % 0x100)
        * 0x100 + (x % 0x100) == x) by (bit_vector);
    assert(x / 0x1000000 < 0x100) by (bit_vector);
}

/// Round trip of the header fields: a packet built from legal field values
/// and encoded to its wire form decodes without error, and every field and
/// the payload read back unchanged. The right-hand sides below are exactly
/// what [`RtpPacket::from_slice`] promises for the decoded packet.
pub proof fn lemma_round_trip(
    mark: bool,
    payload_type: u8,
    seq_number: u16,
    timestamp: u32,
    ssrc: u32,
    payload: Seq<u8>,
)
    requires
        payload_type < 0x80,
    ensures
        ({
            let b = fixed_header_encoding(mark, payload_type, seq_number, timestamp, ssrc, payload);
            &&& decode_err(b) is None
            &&& count_of(b) == 0
            &&& marker_of(b) == mark
            &&& b[1] % 0x80 == payload_type
            &&& be16_at(b, 2) == seq_number
            &&& be32_at(b, 4) == timestamp
            &&& be32_at(b, 8) == ssrc
            &&& csrc_of(b) == Seq::<u32>::empty()
            &&& !extension_flagged(b)
            &&& b.subrange(payload_start(b), b.len() - pad_len_of(b)) == payload
        }),
{
    let b = fixed_header_encoding(mark, payload_type, seq_number, timestamp, ssrc, payload);
    assert(b[0] == 0x80);
    assert(version_of(b) == 2);
    assert(count_of(b) == 0);
    assert(!padding_flagged(b));
    assert(!extension_flagged(b));
    assert(ext_offset(b) == 12);
    assert(payload_start(b) == 12);
    assert(pad_len_of(b) == 0);
    assert(decode_err(b) is None);
    lemma_u32_from_bytes(timestamp);
    lemma_u32_from_bytes(ssrc);
    assert(be32_at(b, 4) == timestamp);
    assert(be32_at(b, 8) == ssrc);
    assert(csrc_of(b) =~= Seq::<u32>::empty());
    assert(b.subrange(12, b.len() as int) =~= payload);
}

/// Version gate: a buffer long enough to pass the length check but whose
/// version field is not 2 is rejected as `InvalidVersion`, carrying the
/// actual two-bit value.
pub proof fn lemma_version_gate(b: Seq<u8>)
    requires
        b.len() >= 12,
        version_of(b) != 2,
    ensures
        decode_err(b) == Some(RtpError::InvalidVersion(version_of(b))),
{
}

/// Padding exactness: once the length, version, CSRC and extension checks
/// pass, decoding fails with `InvalidPadding` carrying the declared count
/// exactly when the padding flag is set and the count exceeds the bytes
/// left behind the header regions; otherwise decoding succeeds and the
/// payload leaves out exactly that many trailing bytes.
pub proof fn lemma_padding_exactness(b: Seq<u8>)
    requires
        b.len() >= 12,
        version_of(b) == 2,
        ext_offset(b) <= b.len(),
        extension_flagged(b) ==> ext_offset(b) + 4 <= b.len() && ext_offset(b) + ext_len_of(b)
            <= b.len(),
    ensures
        (padding_flagged(b) && pad_len_of(b) > b.len() - payload_start(b)) <==> decode_err(b)
            == Some(RtpError::InvalidPadding(pad_len_of(b) as usize)),
        decode_err(b) is None ==> b.subrange(payload_start(b), b.len() - pad_len_of(b)).len()
            == b.len() - payload_start(b) - pad_len_of(b),
{
}

/// Extension length derivation: the extension block spans the declared word
/// count times 4 plus the 4-byte sub-header, so a word count of zero yields
/// a present extension with an empty body.
pub proof fn lemma_extension_length(b: Seq<u8>)
    requires
        decode_err(b) is None,
        extension_flagged(b),
    ensures
        ext_len_of(b) == be16_at(b, ext_offset(b) + 2) * 4 + 4,
        b.subrange(ext_offset(b) + 4, ext_offset(b) + ext_len_of(b)).len() == be16_at(
            b,
            ext_offset(b) + 2,
        ) * 4,
        be16_at(b, ext_offset(b) + 2) == 0 ==> b.subrange(
            ext_offset(b) + 4,
            ext_offset(b) + ext_len_of(b),
        ) == Seq::<u8>::empty(),
{
    assert(be16_at(b, ext_offset(b) + 2) == 0 ==> b.subrange(
        ext_offset(b) + 4,
        ext_offset(b) + ext_len_of(b),
    ) =~= Seq::<u8>::empty());
}

/// Relies on rand::random: a value drawn from the thread-local generator.
/// Nothing is promised of the result.
pub assume_specification<T>[ rand::random::<T> ]() -> (r: T)
    where
        rand::distr::StandardUniform: rand::distr::Distribution<T>,
;

/// Number of chunks of size `chunk_size` needed to cover `len` bytes: the
/// quotient rounded up, zero for an empty payload.
pub open spec fn chunk_count(len: nat, chunk_size: nat) -> nat {
    if len == 0 {
        0
    } else {
        (len - 1) as nat / chunk_size + 1
    }
}

/// The sequence number emitted `k` packets after a packetizer held `start`,
/// wrapping modulo 2^16.
pub open spec fn seq_number_at(start: u16, k: int) -> u16 {
    ((start + k) % 0x10000) as u16
}

/// Stepping the wrapping counter once advances [`seq_number_at`] by one.
proof fn lemma_seq_number_step(start: u16, k: int)
    requires
        k >= 0,
    ensures
        seq_number_at(start, k).wrapping_add(1) == seq_number_at(start, k + 1),
{
    let a = start + k;
    vstd::arithmetic::div_mod::lemma_add_mod_noop(a, 1, 0x10000);
    vstd::arithmetic::div_mod::lemma_mod_bound(a, 0x10000);
    vstd::arithmetic::div_mod::lemma_mod_twice(a, 0x10000);
    assert((a % 0x10000 + 1) % 0x10000 == (a + 1) % 0x10000);
}

/// Emitted sequence numbers compose across calls: counting `k` packets on
/// from the state reached after `n` packets equals counting `n + k` packets
/// from the start, so one packetizer's lifetime is a single wrapping count
/// however its frames are split.
pub proof fn lemma_seq_number_at_compose(start: u16, n: int, k: int)
    requires
        n >= 0,
        k >= 0,
    ensures
        seq_number_at(seq_number_at(start, n), k) == seq_number_at(start, n + k),
{
    let m = 0x10000int;
    let a = start + n;
    vstd::arithmetic::div_mod::lemma_mod_bound(a, m);
    vstd::arithmetic::div_mod::lemma_add_mod_noop(a, k, m);
    vstd::arithmetic::div_mod::lemma_add_mod_noop(a % m, k, m);
    vstd::arithmetic::div_mod::lemma_mod_twice(a, m);
}

/// Sequence numbers do not repeat until wraparound: the numbers emitted at
/// two different points of one packetizer's lifetime differ, as long as
/// fewer than 2^16 packets lie between them.
pub proof fn lemma_seq_numbers_distinct(start: u16, i: int, j: int)
    requires
        0 <= i < j,
        j - i < 0x10000,
    ensures
        seq_number_at(start, i) != seq_number_at(start, j),
{
    let m = 0x10000int;
    let a = start + i;
    let c = start + j;
    vstd::arithmetic::div_mod::lemma_fundamental_div_mod(a, m);
    vstd::arithmetic::div_mod::lemma_fundamental_div_mod(c, m);
    vstd::arithmetic::div_mod::lemma_mod_bound(a, m);
    vstd::arithmetic::div_mod::lemma_mod_bound(c, m);
    if a % m == c % m {
        let q = c / m - a / m;
        assert(c - a == q * m) by (nonlinear_arith)
            requires
                a == m * (a / m) + a % m,
                c == m * (c / m) + c % m,
                a % m == c % m,
                q == c / m - a / m,
        ;
        assert(0 < q * m < m);
        assert(false) by (nonlinear_arith)
            requires
                0 < q * m < m,
                m > 0,
        ;
    }
}

/// Stateful generator of outbound RTP packets for one media source: the
/// payload type, SSRC and MTU are fixed at construction, while the sequence
/// number and timestamp advance with each packetized frame.
pub struct RtpPacketizer {
    /// Largest packet size, header included, that may be emitted.
    pub mtu: usize,
    /// Payload type stamped on every emitted packet.
    pub payload_type: u8,
    /// Sequence number of the packet emitted most recently.
    pub seq_number: u16,
    /// Media timestamp of the frame packetized most recently.
    pub timestamp: u32,
    /// Synchronization source identifier of this sender.
    pub ssrc: u32,
}

impl RtpPacketizer {
    /// Creates a packetizer for one outbound media source. The sequence
    /// number and the timestamp start at random values.
    pub fn new(mtu: usize, payload_type: u8, ssrc: u32) -> (r: RtpPacketizer)
        ensures
            r.mtu == mtu,
            r.payload_type == payload_type,
            r.ssrc == ssrc,
    {
        RtpPacketizer {
            mtu,
            payload_type,
            seq_number: rand::random::<u16>(),
            timestamp: rand::random::<u32>(),
            ssrc,
        }
    }

    /// Splits one encoded frame into packets of at most `mtu` bytes: the
    /// timestamp first advances by `frames` (one frame's worth of media
    /// time), then each chunk of up to `mtu - 12` payload bytes is wrapped
    /// in a packet carrying the next sequence number, and exactly the last
    /// emitted packet has the marker bit set. An empty payload yields no
    /// packets.
    pub fn packetize(&mut self, payload: &[u8], frames: u32) -> (r: Vec<RtpPacket>)
        requires
            old(self).mtu > RtpPacket::HEADER_SIZE,
        ensures
            final(self).mtu == old(self).mtu,
            final(self).payload_type == old(self).payload_type,
            final(self).ssrc == old(self).ssrc,
            final(self).timestamp == old(self).timestamp.wrapping_add(frames),
            r@.len() == chunk_count(
                payload@.len(),
                (old(self).mtu - RtpPacket::HEADER_SIZE) as nat,
            ),
            final(self).seq_number == seq_number_at(old(self).seq_number, r@.len() as int),
            forall|k: int|
                0 <= k < r@.len() ==> {
                    let p = #[trigger] r@[k];
                    let cs = old(self).mtu - RtpPacket::HEADER_SIZE;
                    &&& p.wf()
                    &&& p.cc == 0
                    &&& p.extension is None
                    &&& p.payload_type == old(self).payload_type
                    &&& p.ssrc == old(self).ssrc
                    &&& p.timestamp == old(self).timestamp.wrapping_add(frames)
                    &&& p.seq_number == seq_number_at(old(self).seq_number, k + 1)
                    &&& (p.mark <==> k == r@.len() - 1)
                    &&& p.payload@ == payload@.subrange(
                        k * cs,
                        if (k + 1) * cs <= payload@.len() {
                            (k + 1) * cs
                        } else {
                            payload@.len() as int
                        },
                    )
                },
    {
        self.timestamp = self.timestamp.wrapping_add(frames);
        let chunk_size = self.mtu - RtpPacket::HEADER_SIZE;
        let payload_len = payload.len();
        let n_chunks = if payload_len == 0 {
            0
        } else {
            proof {
                assert((payload_len - 1) as int / (chunk_size as int) <= payload_len - 1)
                    by (nonlinear_arith)
                    requires
                        chunk_size >= 1,
                        payload_len >= 1,
                ;
            }
            (payload_len - 1) / chunk_size + 1
        };
        let ghost seq0 = self.seq_number;
        let mut packets: Vec<RtpPacket> = Vec::new();

        #[verifier::loop_isolation(false)]
        for index in 0..n_chunks
            invariant
                packets@.len() == index,
                self.mtu == old(self).mtu,
                self.payload_type == old(self).payload_type,
                self.ssrc == old(self).ssrc,
                self.timestamp == old(self).timestamp.wrapping_add(frames),
                self.seq_number == seq_number_at(seq0, index as int),
                forall|k: int|
                    0 <= k < index ==> {
                        let p = #[trigger] packets@[k];
                        &&& p.wf()
                        &&& p.cc == 0
                        &&& p.extension is None
                        &&& p.payload_type == old(self).payload_type
                        &&& p.ssrc == old(self).ssrc
                        &&& p.timestamp == old(self).timestamp.wrapping_add(frames)
                        &&& p.seq_number == seq_number_at(seq0, k + 1)
                        &&& (p.mark <==> k == n_chunks - 1)
                        &&& p.payload@ == payload@.subrange(
                            k * (chunk_size as int),
                            if (k + 1) * (chunk_size as int) <= payload@.len() {
                                (k + 1) * (chunk_size as int)
                            } else {
                                payload@.len() as int
                            },
                        )
                    },
        {
            proof {
                lemma_seq_number_step(seq0, index as int);
                assert(chunk_size * index <= payload_len - 1) by (nonlinear_arith)
                    requires
                        chunk_size >= 1,
                        payload_len >= 1,
                        0 <= index <= (payload_len - 1) as int / (chunk_size as int),
                ;
            }
            self.seq_number = self.seq_number.wrapping_add(1);
            let off = chunk_size * index;
            let span = if chunk_size < payload_len - off {
                chunk_size
            } else {
                payload_len - off
            };
            proof {
                assert(off + span == if (index + 1) * (chunk_size as int) <= payload@.len() {
                    (index + 1) * (chunk_size as int)
                } else {
                    payload@.len() as int
                }) by (nonlinear_arith)
                    requires
                        off == chunk_size * index,
                        span == if chunk_size < payload_len - off {
                            chunk_size as int
                        } else {
                            payload_len - off
                        },
                        payload_len == payload@.len(),
                        off <= payload_len - 1,
                ;
            }
            packets.push(
                RtpPacket::new(
                    index == n_chunks - 1,
                    self.payload_type,
                    self.seq_number,
                    self.timestamp,
                    self.ssrc,
                    slice_to_vec(slice_subrange(payload, off, off + span)),
                ),
            );
            proof {
                assert(off == (index as int) * (chunk_size as int)) by (nonlinear_arith)
                    requires
                        off == chunk_size * index,
                ;
            }
        }
        packets
    }
}

} // verus!
