// Tests of the packet codec: bytes to TLV packet and back.

use mndp::protocol::{MndpType, Packet, TypeValue};

// Capture of one announcement: header 0x3cc6, sequence 0, eleven TLV fields.
const CAPTURE: &str = "3cc6000000010006c4ad34bf91110005000b656f622d726f75746572310007000f362e34382e312028737461626c6529000800084d696b726f54696b000a000441752e00000b0009324150372d5a564335000c00085242373630694753000e000101000f001026006c50067f7700000000000000000100100007766c616e31353700110004ac129d01";

#[test]
fn test_packet_from_bytes() {
    let bytes: Vec<u8> = hex::decode(CAPTURE).unwrap();
    let packet = Packet::from_bytes(&bytes).unwrap();
    let res: Vec<u8> = packet.to_bytes();
    assert_eq!(bytes, res);
}

#[test]
fn test_mndp_type_try_into() {
    let all = vec![
        MndpType::MacAddress,
        MndpType::Identity,
        MndpType::Version,
        MndpType::Platform,
        MndpType::Uptime,
        MndpType::SoftwareId,
        MndpType::Board,
        MndpType::Unpack,
        MndpType::Ipv6Address,
        MndpType::InterfaceName,
        MndpType::Ipv4Address,
    ];
    for mndp_type in all {
        let a = mndp_type.to_u16();
        let b: MndpType = MndpType::try_from_u16(a)
            .expect(format!("TryInto<u16> not implemented for {:?}", mndp_type).as_str());
        assert_eq!(mndp_type, b);
    }
}

#[test]
fn test_mndp_type_unknown_code() {
    assert_eq!(MndpType::try_from_u16(0), None);
    assert_eq!(MndpType::try_from_u16(2), None);
    assert_eq!(MndpType::try_from_u16(0x99), None);
    assert_eq!(MndpType::try_from_u16(u16::MAX), None);
}

#[test]
fn test_decode_truncated() {
    // Anything shorter than the 4-byte header and sequence fails.
    for n in 0..4 {
        let bytes: Vec<u8> = vec![0xff; n];
        assert_eq!(Packet::from_bytes(&bytes), Err(()));
    }
    // Exactly 4 bytes succeed, with no fields.
    let bytes: Vec<u8> = vec![0x3c, 0xc6, 0x00, 0x07];
    let packet = Packet::from_bytes(&bytes).unwrap();
    assert_eq!(packet.header, 0x3cc6);
    assert_eq!(packet.sequence, 7);
    assert!(packet.fields.is_empty());
}

#[test]
fn test_capture_fields() {
    let bytes: Vec<u8> = hex::decode(CAPTURE).unwrap();
    let packet = Packet::from_bytes(&bytes).unwrap();
    assert_eq!(packet.header, 0x3cc6);
    assert_eq!(packet.sequence, 0);
    assert_eq!(packet.fields.len(), 11);
    assert_eq!(packet.fields[0].typ, 1);
    assert_eq!(packet.fields[0].value, vec![0xc4, 0xad, 0x34, 0xbf, 0x91, 0x11]);
    assert_eq!(packet.fields[1].typ, 5);
    assert_eq!(packet.fields[1].value, b"eob-router1".to_vec());
    assert_eq!(packet.fields[10].typ, 17);
    assert_eq!(packet.fields[10].value, vec![0xac, 0x12, 0x9d, 0x01]);
}

#[test]
fn test_truncation_leniency() {
    // Header and sequence, one whole record, then a record whose declared
    // length (10) exceeds the two bytes that follow: the trailing partial
    // record is dropped, the prior record is kept.
    let bytes: Vec<u8> = vec![
        0x00, 0x01, 0x00, 0x02, // header 1, sequence 2
        0x00, 0x05, 0x00, 0x03, b'a', b'b', b'c', // identity "abc"
        0x00, 0x01, 0x00, 0x0a, 0xde, 0xad, // declares 10 bytes, has 2
    ];
    let packet = Packet::from_bytes(&bytes).unwrap();
    assert_eq!(packet.header, 1);
    assert_eq!(packet.sequence, 2);
    assert_eq!(packet.fields.len(), 1);
    assert_eq!(packet.fields[0].typ, 5);
    assert_eq!(packet.fields[0].value, b"abc".to_vec());
}

#[test]
fn test_decode_zero_length_value() {
    let bytes: Vec<u8> = vec![0x00, 0x00, 0x00, 0x00, 0x00, 0x05, 0x00, 0x00];
    let packet = Packet::from_bytes(&bytes).unwrap();
    assert_eq!(packet.fields.len(), 1);
    assert_eq!(packet.fields[0].typ, 5);
    assert!(packet.fields[0].value.is_empty());
}

#[test]
fn test_decode_unknown_type_preserved() {
    // The TLV layer keeps fields with unknown type codes.
    let bytes: Vec<u8> = vec![0x00, 0x00, 0x00, 0x00, 0x00, 0x99, 0x00, 0x01, 0x2a];
    let packet = Packet::from_bytes(&bytes).unwrap();
    assert_eq!(packet.fields.len(), 1);
    assert_eq!(packet.fields[0].typ, 0x99);
    assert_eq!(packet.fields[0].value, vec![0x2a]);
}

#[test]
fn test_decode_encode_decode_same() {
    let bytes: Vec<u8> = hex::decode(CAPTURE).unwrap();
    let packet = Packet::from_bytes(&bytes).unwrap();
    let again = Packet::from_bytes(&packet.to_bytes()).unwrap();
    assert_eq!(packet, again);
}

#[test]
fn test_encode_header_bytes() {
    let mut packet = Packet::new();
    packet.header = 0x3cc6;
    packet.sequence = 0x0102;
    let bytes = packet.to_bytes();
    assert_eq!(bytes, vec![0x3c, 0xc6, 0x01, 0x02]);
}

#[test]
fn test_encode_clamps_long_value() {
    let mut packet = Packet::new();
    packet.fields.push(TypeValue { typ: 5, value: vec![0x41; 70000] });
    let bytes = packet.to_bytes();
    // type, then a length prefix clamped to 65535, then that many bytes
    assert_eq!(bytes.len(), 4 + 4 + 65535);
    assert_eq!(&bytes[4..8], &[0x00, 0x05, 0xff, 0xff]);
    assert_eq!(bytes[8], 0x41);
    assert_eq!(bytes[4 + 4 + 65534], 0x41);
}

#[test]
fn test_type_value_new() {
    let tv = TypeValue::new();
    assert_eq!(tv.typ, 0);
    assert!(tv.value.is_empty());
}

#[test]
fn test_packet_new() {
    let p = Packet::new();
    assert_eq!(p.header, 0);
    assert_eq!(p.sequence, 0);
    assert!(p.fields.is_empty());
}
