use jackline::masp::message::{MalformedPacket, MaspPacket, PacketType};

#[test]
fn serialise_video_packet_scenario() {
    let p = MaspPacket::new(PacketType::VideoData, 42, vec![0x01, 0x02, 0x03]);
    let bytes = p.serialize();
    assert_eq!(
        bytes,
        vec![0x4D, 0x41, 0x53, 0x50, 0x01, 0x30, 0x00, 0x00, 0x00, 0x2A, 0x01, 0x02, 0x03]
    );
    let q = MaspPacket::deserialize(&bytes).unwrap();
    assert_eq!(q.version, p.version);
    assert_eq!(q.packet_type, p.packet_type);
    assert_eq!(q.sequence_number, p.sequence_number);
    assert_eq!(q.payload, p.payload);
}

#[test]
fn round_trip_every_packet_type() {
    let types = [
        PacketType::HandshakeRequest,
        PacketType::HandshakeAck,
        PacketType::HandshakeFinalAck,
        PacketType::TextData,
        PacketType::AudioData,
        PacketType::VideoData,
        PacketType::Ack,
        PacketType::RetransmissionRequest,
        PacketType::Punch,
    ];
    for (i, t) in types.iter().enumerate() {
        let seq = 0xDEAD_BEEFu32.wrapping_add(i as u32);
        let p = MaspPacket::new(*t, seq, vec![i as u8; i]);
        let q = MaspPacket::deserialize(&p.serialize()).unwrap();
        assert_eq!(q.packet_type, *t);
        assert_eq!(q.sequence_number, seq);
        assert_eq!(q.payload, vec![i as u8; i]);
        assert_eq!(q.version, 1);
    }
}

#[test]
fn type_bytes_on_the_wire() {
    assert_eq!(PacketType::HandshakeRequest.code(), 0x01);
    assert_eq!(PacketType::HandshakeAck.code(), 0x02);
    assert_eq!(PacketType::HandshakeFinalAck.code(), 0x03);
    assert_eq!(PacketType::TextData.code(), 0x10);
    assert_eq!(PacketType::AudioData.code(), 0x20);
    assert_eq!(PacketType::VideoData.code(), 0x30);
    assert_eq!(PacketType::Ack.code(), 0x40);
    assert_eq!(PacketType::RetransmissionRequest.code(), 0x50);
    assert_eq!(PacketType::Punch.code(), 0x60);
    assert_eq!(PacketType::try_from(0x30), Ok(PacketType::VideoData));
    assert_eq!(PacketType::try_from(0x31), Err(MalformedPacket::UnknownType));
}

#[test]
fn bad_magic_is_malformed() {
    let mut bytes = MaspPacket::new(PacketType::Punch, 7, vec![]).serialize();
    bytes[2] = b'X';
    assert_eq!(MaspPacket::deserialize(&bytes).unwrap_err(), MalformedPacket::BadMagic);
    let short_garbage = [0u8, 1, 2];
    assert_eq!(MaspPacket::deserialize(&short_garbage).unwrap_err(), MalformedPacket::TooShort);
}

#[test]
fn parse_errors_in_order() {
    assert_eq!(
        MaspPacket::deserialize(&[0x4D, 0x41, 0x53, 0x50, 1, 0x30, 0, 0, 0]).unwrap_err(),
        MalformedPacket::TooShort
    );
    assert_eq!(
        MaspPacket::deserialize(&[0x4D, 0x41, 0x53, 0x50, 2, 0x30, 0, 0, 0, 1]).unwrap_err(),
        MalformedPacket::UnsupportedVersion
    );
    assert_eq!(
        MaspPacket::deserialize(&[0x4D, 0x41, 0x53, 0x50, 1, 0x70, 0, 0, 0, 1]).unwrap_err(),
        MalformedPacket::UnknownType
    );
    let header_only = MaspPacket::deserialize(&[0x4D, 0x41, 0x53, 0x50, 1, 0x40, 1, 2, 3, 4]).unwrap();
    assert_eq!(header_only.sequence_number, 0x0102_0304);
    assert!(header_only.payload.is_empty());
}
