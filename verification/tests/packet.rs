use haven_transfer::packet::{
    DataPacket, PacketHeader, ENCRYPTION_OVERHEAD, FLAG_END, FLAG_RETRANSMIT, FLAG_START,
    HEADER_SIZE, MAGIC, MAX_PLAINTEXT_PER_PACKET, MAX_UDP_PAYLOAD,
};

#[test]
fn roundtrip_header() {
    let hdr = PacketHeader {
        session_id: 0xDEADBEEF,
        sequence: 42,
        flags: FLAG_START | FLAG_END,
    };
    let mut buf = [0u8; HEADER_SIZE];
    hdr.write_to(&mut buf);
    let parsed = PacketHeader::parse(&buf).unwrap();
    assert_eq!(parsed.session_id, 0xDEADBEEF);
    assert_eq!(parsed.sequence, 42);
    assert_eq!(parsed.flags, FLAG_START | FLAG_END);
}

#[test]
fn roundtrip_packet() {
    let pkt = DataPacket {
        header: PacketHeader {
            session_id: 1,
            sequence: 100,
            flags: 0,
        },
        encrypted_payload: vec![1, 2, 3, 4, 5],
    };
    let bytes = pkt.to_bytes();
    let parsed = DataPacket::from_bytes(&bytes).unwrap();
    assert_eq!(parsed.header.session_id, 1);
    assert_eq!(parsed.header.sequence, 100);
    assert_eq!(parsed.encrypted_payload, vec![1, 2, 3, 4, 5]);
}

#[test]
fn reject_bad_magic() {
    let buf = [0xFF, 0xFF, 0, 0, 0, 0, 0, 0, 0, 0, 0, 0, 0, 0, 0, 0];
    assert!(PacketHeader::parse(&buf).is_none());
}

#[test]
fn reject_short_buffer() {
    let buf = [0x48, 0x54, 0, 0];
    assert!(PacketHeader::parse(&buf).is_none());
}

#[test]
fn packet_header_exact_bytes() {
    let hdr = PacketHeader { session_id: 0x01020304, sequence: 0x1112131415161718, flags: 0x0205 };
    let mut buf = [0xEEu8; 20];
    hdr.write_to(&mut buf);
    assert_eq!(
        buf,
        [
            0x48, 0x54, 0x01, 0x02, 0x03, 0x04, 0x11, 0x12, 0x13, 0x14, 0x15, 0x16, 0x17, 0x18,
            0x02, 0x05, 0xEE, 0xEE, 0xEE, 0xEE
        ]
    );
    assert_eq!(PacketHeader::parse(&buf), Some(hdr));
}

#[test]
fn packet_constants() {
    assert_eq!(MAGIC, [0x48, 0x54]);
    assert_eq!(HEADER_SIZE, 16);
    assert_eq!(MAX_UDP_PAYLOAD, 1472);
    assert_eq!(ENCRYPTION_OVERHEAD, 28);
    assert_eq!(MAX_PLAINTEXT_PER_PACKET, 1428);
    assert_eq!((FLAG_START, FLAG_END, FLAG_RETRANSMIT), (0x01, 0x02, 0x04));
}

#[test]
fn packet_without_payload_is_no_packet() {
    let hdr = PacketHeader { session_id: 7, sequence: 9, flags: 0 };
    let mut buf = [0u8; HEADER_SIZE];
    hdr.write_to(&mut buf);
    assert!(PacketHeader::parse(&buf).is_some());
    assert!(DataPacket::from_bytes(&buf).is_none());
    let mut longer = buf.to_vec();
    longer.push(0xAB);
    let p = DataPacket::from_bytes(&longer).unwrap();
    assert_eq!(p.header, hdr);
    assert_eq!(p.encrypted_payload, vec![0xAB]);
}

#[test]
fn packet_magic_checked_bytewise() {
    let mut buf = [0u8; 16];
    buf[0] = 0x48;
    buf[1] = 0x55;
    assert!(PacketHeader::parse(&buf).is_none());
    buf[0] = 0x49;
    buf[1] = 0x54;
    assert!(PacketHeader::parse(&buf).is_none());
    buf[0] = 0x48;
    buf[1] = 0x54;
    assert_eq!(
        PacketHeader::parse(&buf),
        Some(PacketHeader { session_id: 0, sequence: 0, flags: 0 })
    );
    assert!(PacketHeader::parse(&buf[..15]).is_none());
}
