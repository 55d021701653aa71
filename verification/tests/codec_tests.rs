use rtp_codec::rtcp::{RtcpError, RtcpPacket};
use rtp_codec::rtp::{RtpError, RtpPacket, RtpPacketizer};

#[test]
fn rtp_round_trip_header_fields() {
    let payload: Vec<u8> = vec![0xDE, 0xAD, 0xBE, 0xEF, 0x01];
    let packet = RtpPacket::new(true, 96, 27023, 3653407706, 476325762, payload.clone());
    let bytes = packet.to_bytes();
    assert_eq!(17, bytes.len());
    let decoded = RtpPacket::from_slice(&bytes).unwrap();
    assert_eq!(0, decoded.cc);
    assert!(decoded.mark);
    assert_eq!(96, decoded.payload_type);
    assert_eq!(27023, decoded.seq_number);
    assert_eq!(3653407706, decoded.timestamp);
    assert_eq!(476325762, decoded.ssrc);
    assert!(decoded.extension.is_none());
    assert_eq!(payload, decoded.payload);
}

#[test]
fn rtp_round_trip_no_marker_empty_payload() {
    let packet = RtpPacket::new(false, 0, 0, 0, 0xFFFFFFFF, Vec::new());
    let bytes = packet.to_bytes();
    assert_eq!(12, bytes.len());
    let decoded = RtpPacket::from_slice(&bytes).unwrap();
    assert!(!decoded.mark);
    assert_eq!(0, decoded.payload_type);
    assert_eq!(0, decoded.seq_number);
    assert_eq!(0, decoded.timestamp);
    assert_eq!(0xFFFFFFFF, decoded.ssrc);
    assert_eq!(0, decoded.payload.len());
}

#[test]
fn rtp_parse_too_short() {
    let data: [u8; 5] = [0x80, 0x60, 0x69, 0x8f, 0xd9];
    let error = RtpPacket::from_slice(&data).unwrap_err();
    assert!(matches!(error, RtpError::InvalidLen(5)));
}

#[test]
fn rtp_parse_csrc_count_too_large() {
    // Version 2, CSRC count 2, but nothing behind the fixed header.
    let data: [u8; 12] = [
        0x82, 0x60, 0x69, 0x8f, 0xd9, 0xc2, 0x93, 0xda, 0x1c, 0x64, 0x27, 0x82,
    ];
    let error = RtpPacket::from_slice(&data).unwrap_err();
    assert!(matches!(error, RtpError::InvalidCSRCCount(2)));
}

#[test]
fn rtp_parse_csrc_list() {
    let data: [u8; 22] = [
        0x82, 0x60, 0x69, 0x8f, 0xd9, 0xc2, 0x93, 0xda, 0x1c, 0x64, 0x27, 0x82, 0x00, 0x00, 0x00,
        0x07, 0xAB, 0xCD, 0xEF, 0x12, 0x55, 0x66,
    ];
    let packet = RtpPacket::from_slice(&data).unwrap();
    assert_eq!(2, packet.cc);
    assert_eq!(vec![7u32, 0xABCDEF12], packet.csrc);
    assert_eq!(vec![0x55u8, 0x66], packet.payload);
}

#[test]
fn rtp_parse_empty_extension() {
    // Extension flag set with a declared word count of zero: the extension
    // is present but its body is empty.
    let data: [u8; 17] = [
        0x90, 0x60, 0x69, 0x8f, 0xd9, 0xc2, 0x93, 0xda, 0x1c, 0x64, 0x27, 0x82, 0xBE, 0xDE, 0x00,
        0x00, 0x42,
    ];
    let packet = RtpPacket::from_slice(&data).unwrap();
    let extension = packet.extension.unwrap();
    assert_eq!(0xBEDE, extension.head);
    assert_eq!(0, extension.data.len());
    assert_eq!(vec![0x42u8], packet.payload);
}

#[test]
fn rtp_parse_extension_bytes() {
    let data: [u8; 25] = [
        0x90, 0xe0, 0x69, 0x8f, 0xd9, 0xc2, 0x93, 0xda, 0x1c, 0x64, 0x27, 0x82, 0xBE, 0xDE, 0x00,
        0x01, 0x50, 0xAA, 0x00, 0x00, 0x98, 0x36, 0xbe, 0x88, 0x9e,
    ];
    let packet = RtpPacket::from_slice(&data).unwrap();
    let extension = packet.extension.unwrap();
    assert_eq!(0xBEDE, extension.head);
    assert_eq!(vec![0x50u8, 0xAA, 0x00, 0x00], extension.data);
    assert_eq!(vec![0x98u8, 0x36, 0xbe, 0x88, 0x9e], packet.payload);
}

#[test]
fn packetizer_sequence_numbers_across_calls() {
    let data: [u8; 100] = [7u8; 100];
    let mut packetizer = RtpPacketizer::new(52, 96, 42);
    // 52 - 12 = 40 payload bytes per packet: three packets per call.
    let first = packetizer.packetize(&data, 160);
    let second = packetizer.packetize(&data, 160);
    assert_eq!(3, first.len());
    assert_eq!(3, second.len());
    let start = first[0].seq_number;
    for (k, packet) in first.iter().chain(second.iter()).enumerate() {
        assert_eq!(start.wrapping_add(k as u16), packet.seq_number);
        let last_of_call = k % 3 == 2;
        assert_eq!(last_of_call, packet.mark);
    }
    assert_eq!(
        first[0].timestamp.wrapping_add(160),
        second[0].timestamp
    );
}

#[test]
fn packetizer_empty_payload_yields_no_packets() {
    let data: [u8; 0] = [];
    let mut packetizer = RtpPacketizer::new(100, 96, 42);
    let packets = packetizer.packetize(&data, 160);
    assert_eq!(0, packets.len());
}

#[test]
fn packetizer_chunk_contents() {
    let mut data: [u8; 10] = [0u8; 10];
    for (k, byte) in data.iter_mut().enumerate() {
        *byte = k as u8;
    }
    // 16 - 12 = 4 payload bytes per packet.
    let mut packetizer = RtpPacketizer::new(16, 96, 42);
    let packets = packetizer.packetize(&data, 1);
    assert_eq!(3, packets.len());
    assert_eq!(vec![0u8, 1, 2, 3], packets[0].payload);
    assert_eq!(vec![4u8, 5, 6, 7], packets[1].payload);
    assert_eq!(vec![8u8, 9], packets[2].payload);
    assert!(!packets[0].mark);
    assert!(!packets[1].mark);
    assert!(packets[2].mark);
}

#[test]
fn rtcp_construct() {
    let packet = RtcpPacket::new(200, vec![1u8, 2, 3]);
    assert_eq!(0, packet.cc);
    assert_eq!(200, packet.payload_type);
    assert_eq!(3, packet.length);
    assert_eq!(vec![1u8, 2, 3], packet.payload);
}

#[test]
fn rtcp_parse_basic() {
    let mut data: [u8; 32] = [0u8; 32];
    data[0] = 0x80;
    data[1] = 0xC8; // packet type 200, masked to 7 bits on read
    data[2] = 0x00;
    data[3] = 0x07;
    data[31] = 0x99;
    let packet = RtcpPacket::from_slice(&data).unwrap();
    assert_eq!(0, packet.cc);
    assert_eq!(0x48, packet.payload_type);
    assert_eq!(7, packet.length);
    // Payload starts behind the 4-byte header plus one 24-byte block.
    assert_eq!(vec![0u8, 0, 0, 0x99], packet.payload);
}

#[test]
fn rtcp_parse_too_short() {
    let data: [u8; 3] = [0x80, 0xC8, 0x00];
    let error = RtcpPacket::from_slice(&data).unwrap_err();
    assert!(matches!(error, RtcpError::InvalidLen(3)));
}

#[test]
fn rtcp_parse_invalid_version() {
    let data: [u8; 32] = [0u8; 32];
    let error = RtcpPacket::from_slice(&data).unwrap_err();
    assert!(matches!(error, RtcpError::InvalidVersion(0)));
}

#[test]
fn rtcp_parse_count_too_large() {
    // Count 1 requires 4 + 24 + 24 = 52 bytes.
    let mut data: [u8; 32] = [0u8; 32];
    data[0] = 0x81;
    let error = RtcpPacket::from_slice(&data).unwrap_err();
    assert!(matches!(error, RtcpError::PacketTooShort(1)));
}

#[test]
fn rtcp_parse_padded() {
    let mut data: [u8; 32] = [0u8; 32];
    data[0] = 0xA0;
    data[1] = 0xC9;
    data[31] = 0x02;
    let packet = RtcpPacket::from_slice(&data).unwrap();
    assert_eq!(2, packet.payload.len());
}

#[test]
fn rtcp_parse_excess_padding() {
    let mut data: [u8; 32] = [0u8; 32];
    data[0] = 0xA0;
    data[31] = 0x05;
    let error = RtcpPacket::from_slice(&data).unwrap_err();
    assert!(matches!(error, RtcpError::InvalidPadding(5)));
}
