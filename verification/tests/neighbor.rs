// Tests of the neighbor mapper: TLV packet to neighbor record and back.

use mndp::neighbor::{Neighbor, Unpack};
use mndp::protocol::{Packet, TypeValue};

// Capture of one announcement: header 0x3cc6, sequence 0, eleven TLV fields.
const CAPTURE: &str = "3cc6000000010006c4ad34bf91110005000b656f622d726f75746572310007000f362e34382e312028737461626c6529000800084d696b726f54696b000a000441752e00000b0009324150372d5a564335000c00085242373630694753000e000101000f001026006c50067f7700000000000000000100100007766c616e31353700110004ac129d01";

fn full_neighbor() -> Neighbor {
    Neighbor::builder()
        .board("RB760iGS".to_string())
        .identity("eob-router1".to_string())
        .interface_name("vlan157".to_string())
        .ipv4_address([172, 18, 157, 1])
        .ipv6_address([
            0x26, 0x00, 0x6c, 0x50, 0x06, 0x7f, 0x77, 0x00, 0x00, 0x00, 0x00, 0x00, 0x00, 0x00,
            0x00, 0x01,
        ])
        .mac_address([0xc4, 0xad, 0x34, 0xbf, 0x91, 0x11])
        .platform("MikroTik".to_string())
        .software_id("2AP7-ZVC5".to_string())
        .unpack(Unpack::Simple)
        .uptime(2677)
        .version("6.48.1 (stable)".to_string())
        .build()
}

#[test]
fn test_capture_to_neighbor() {
    let bytes: Vec<u8> = hex::decode(CAPTURE).unwrap();
    let packet = Packet::from_bytes(&bytes).unwrap();
    let n = packet.to_neighbor();
    assert_eq!(n.mac_address, Some([0xc4, 0xad, 0x34, 0xbf, 0x91, 0x11]));
    assert_eq!(n.identity, Some("eob-router1".to_string()));
    assert_eq!(n.version, Some("6.48.1 (stable)".to_string()));
    assert_eq!(n.platform, Some("MikroTik".to_string()));
    assert_eq!(n.uptime, Some(0x002e7541)); // value bytes 41 75 2e 00, little-endian
    assert_eq!(n.software_id, Some("2AP7-ZVC5".to_string()));
    assert_eq!(n.board, Some("RB760iGS".to_string()));
    assert_eq!(n.unpack, Some(Unpack::Simple));
    assert_eq!(
        n.ipv6_address,
        Some([
            0x26, 0x00, 0x6c, 0x50, 0x06, 0x7f, 0x77, 0x00, 0x00, 0x00, 0x00, 0x00, 0x00, 0x00,
            0x00, 0x01
        ])
    );
    assert_eq!(n.interface_name, Some("vlan157".to_string()));
    assert_eq!(n.ipv4_address, Some([172, 18, 157, 1]));
}

#[test]
fn test_neighbor_roundtrip_full() {
    let n = full_neighbor();
    let packet = Packet::from_neighbor(&n);
    assert_eq!(packet.header, 0);
    assert_eq!(packet.sequence, 0);
    let back = packet.to_neighbor();
    assert_eq!(back, n);
}

#[test]
fn test_neighbor_roundtrip_sparse() {
    let n = Neighbor::builder()
        .identity("router".to_string())
        .uptime(450)
        .build();
    let back = Packet::from_neighbor(&n).to_neighbor();
    assert_eq!(back.identity, Some("router".to_string()));
    assert_eq!(back.uptime, Some(450));
    assert_eq!(back.board, None);
    assert_eq!(back.interface_name, None);
    assert_eq!(back.ipv4_address, None);
    assert_eq!(back.ipv6_address, None);
    assert_eq!(back.mac_address, None);
    assert_eq!(back.platform, None);
    assert_eq!(back.software_id, None);
    assert_eq!(back.unpack, None);
    assert_eq!(back.version, None);
}

#[test]
fn test_neighbor_roundtrip_through_bytes() {
    let n = full_neighbor();
    let bytes = Packet::from_neighbor(&n).to_bytes();
    let back = Packet::from_bytes(&bytes).unwrap().to_neighbor();
    assert_eq!(back, n);
}

#[test]
fn test_canonical_field_order() {
    let n = full_neighbor();
    let packet = Packet::from_neighbor(&n);
    let types: Vec<u16> = packet.fields.iter().map(|tv| tv.typ).collect();
    assert_eq!(types, vec![12, 5, 16, 17, 15, 1, 8, 11, 14, 10, 7]);
}

#[test]
fn test_uptime_encoding_little_endian() {
    let n = Neighbor::builder().uptime(2677).build();
    let packet = Packet::from_neighbor(&n);
    assert_eq!(packet.fields.len(), 1);
    assert_eq!(packet.fields[0].typ, 10);
    assert_eq!(packet.fields[0].value, vec![0x75, 0x0a, 0x00, 0x00]);
}

#[test]
fn test_uptime_overflow_omitted() {
    let n = Neighbor::builder().uptime(u32::MAX as u64 + 1).build();
    let packet = Packet::from_neighbor(&n);
    assert!(packet.fields.is_empty());
    assert_eq!(packet.to_neighbor().uptime, None);
}

#[test]
fn test_uptime_max_kept() {
    let n = Neighbor::builder().uptime(u32::MAX as u64).build();
    let packet = Packet::from_neighbor(&n);
    assert_eq!(packet.fields.len(), 1);
    assert_eq!(packet.fields[0].value, vec![0xff, 0xff, 0xff, 0xff]);
    assert_eq!(packet.to_neighbor().uptime, Some(u32::MAX as u64));
}

#[test]
fn test_unpack_unsupported_omitted() {
    let n = Neighbor::builder().unpack(Unpack::Unsupported).build();
    let packet = Packet::from_neighbor(&n);
    assert!(packet.fields.is_empty());
}

#[test]
fn test_unpack_decoding() {
    for (byte, expected) in [
        (0u8, Some(Unpack::No)),
        (1u8, Some(Unpack::Simple)),
        (2u8, None),
        (0xff, None),
    ] {
        let mut packet = Packet::new();
        packet.fields.push(TypeValue { typ: 14, value: vec![byte] });
        assert_eq!(packet.to_neighbor().unpack, expected);
    }
    // An empty unpack value is treated as absent too.
    let mut packet = Packet::new();
    packet.fields.push(TypeValue { typ: 14, value: vec![] });
    assert_eq!(packet.to_neighbor().unpack, None);
}

#[test]
fn test_text_lossy_never_fails() {
    // Invalid UTF-8 decodes to text with replacement characters.
    let mut packet = Packet::new();
    packet.fields.push(TypeValue { typ: 5, value: vec![b'f', 0xff, b'o'] });
    let n = packet.to_neighbor();
    assert_eq!(n.identity, Some("f\u{fffd}o".to_string()));
}

#[test]
fn test_fixed_width_mismatch_dropped() {
    // Address fields of the wrong width are dropped; other fields are
    // decoded as usual.
    let mut packet = Packet::new();
    packet.fields.push(TypeValue { typ: 17, value: vec![1, 2, 3] });
    packet.fields.push(TypeValue { typ: 15, value: vec![0; 15] });
    packet.fields.push(TypeValue { typ: 1, value: vec![0; 7] });
    packet.fields.push(TypeValue { typ: 5, value: b"ok".to_vec() });
    let n = packet.to_neighbor();
    assert_eq!(n.ipv4_address, None);
    assert_eq!(n.ipv6_address, None);
    assert_eq!(n.mac_address, None);
    assert_eq!(n.identity, Some("ok".to_string()));
}

#[test]
fn test_uptime_short_value_dropped() {
    let mut packet = Packet::new();
    packet.fields.push(TypeValue { typ: 10, value: vec![0x75, 0x0a, 0x00] });
    assert_eq!(packet.to_neighbor().uptime, None);
}

#[test]
fn test_last_write_wins() {
    let mut packet = Packet::new();
    packet.fields.push(TypeValue { typ: 5, value: b"first".to_vec() });
    packet.fields.push(TypeValue { typ: 5, value: b"second".to_vec() });
    assert_eq!(packet.to_neighbor().identity, Some("second".to_string()));
}

#[test]
fn test_unknown_type_ignored_by_mapper() {
    let mut packet = Packet::new();
    packet.fields.push(TypeValue { typ: 0x99, value: vec![1, 2, 3] });
    let n = packet.to_neighbor();
    assert_eq!(n, Neighbor::new());
}

#[test]
fn test_builder_overwrites() {
    let n = Neighbor::builder()
        .board("first".to_string())
        .board("second".to_string())
        .build();
    assert_eq!(n.board, Some("second".to_string()));
}

#[test]
fn test_new_neighbor_blank() {
    let n = Neighbor::new();
    assert_eq!(n.board, None);
    assert_eq!(n.identity, None);
    assert_eq!(n.interface_name, None);
    assert_eq!(n.ipv4_address, None);
    assert_eq!(n.ipv6_address, None);
    assert_eq!(n.mac_address, None);
    assert_eq!(n.platform, None);
    assert_eq!(n.software_id, None);
    assert_eq!(n.unpack, None);
    assert_eq!(n.uptime, None);
    assert_eq!(n.version, None);
}
