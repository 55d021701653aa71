//! Codec for the wire formats of the real-time media transport protocols
//! RTP and RTCP: validating decoders for raw datagrams, a packet
//! constructor, and a stateful packetizer that splits an encoded frame
//! into MTU-bounded packets.

pub mod rtcp;
pub mod rtp;
pub mod wire;
