//! The data packet of the point-to-point mode.
//!
//! ```text
//! [0..2]    magic "HT"
//! [2..6]    session id (u32, big-endian)
//! [6..14]   sequence number (u64, big-endian)
//! [14..16]  flags (u16, big-endian)
//! [16..]    sealed payload: 12-byte vector, ciphertext, 16-byte tag
//! ```

use vstd::prelude::*;
use crate::wire::{
    get_be_u16, get_be_u32, get_be_u64, put_be_u16, put_be_u32, put_be_u64, spec_be_u16,
    spec_be_u32, spec_be_u64, spec_from_be_u16, spec_from_be_u32, spec_from_be_u64,
    spec_overwrite, lemma_be_roundtrip,
};

verus! {

broadcast use {vstd::slice::group_slice_axioms, vstd::array::group_array_axioms};

/// The first two bytes of every packet: `HT`.
pub const MAGIC: [u8; 2] = [0x48, 0x54];

/// Bytes of the packet header.
pub const HEADER_SIZE: usize = 16;

/// Most bytes in one UDP payload on a 1500-byte link.
pub const MAX_UDP_PAYLOAD: usize = 1472;

/// What sealing adds to a packet: a 12-byte vector and a 16-byte tag.
pub const ENCRYPTION_OVERHEAD: usize = 28;

/// Most plaintext bytes in one packet.
pub const MAX_PLAINTEXT_PER_PACKET: usize = 1428;

/// Flag of the first packet of a file.
pub const FLAG_START: u16 = 1;

/// Flag of the last packet of a file.
pub const FLAG_END: u16 = 2;

/// Flag of a packet that is sent again.
pub const FLAG_RETRANSMIT: u16 = 4;

/// How the size constants hang together.
pub proof fn lemma_packet_constants()
    ensures
        MAX_PLAINTEXT_PER_PACKET == MAX_UDP_PAYLOAD - HEADER_SIZE - ENCRYPTION_OVERHEAD,
        MAGIC@ == seq![0x48u8, 0x54u8],
{
    assert(MAGIC@ =~= seq![0x48u8, 0x54u8]);
}

/// The header of a data packet.
#[derive(Debug, Clone, Copy, PartialEq, Eq, Structural)]
pub struct PacketHeader {
    pub session_id: u32,
    pub sequence: u64,
    pub flags: u16,
}

/// The 16 bytes of a header.
pub open spec fn spec_packet_header_bytes(h: PacketHeader) -> Seq<u8> {
    seq![0x48u8, 0x54u8] + spec_be_u32(h.session_id) + spec_be_u64(h.sequence) + spec_be_u16(
        h.flags,
    )
}

/// What the first 16 bytes of `buf` say, if they are a header.
pub open spec fn spec_parse_header(buf: Seq<u8>) -> Option<PacketHeader> {
    if buf.len() < HEADER_SIZE || buf[0] != 0x48 || buf[1] != 0x54 {
        None
    } else {
        Some(
            PacketHeader {
                session_id: spec_from_be_u32(buf.subrange(2, 6)),
                sequence: spec_from_be_u64(buf.subrange(6, 14)),
                flags: spec_from_be_u16(buf.subrange(14, 16)),
            },
        )
    }
}

impl PacketHeader {
    /// Writes the header over the first 16 bytes of `buf`.
    pub fn write_to(&self, buf: &mut [u8])
        requires
            old(buf)@.len() >= HEADER_SIZE,
        ensures
            final(buf)@ == spec_overwrite(old(buf)@, 0, spec_packet_header_bytes(*self)),
    {
        buf[0] = 0x48;
        buf[1] = 0x54;
        put_be_u32(buf, 2, self.session_id);
        put_be_u64(buf, 6, self.sequence);
        put_be_u16(buf, 14, self.flags);
        assert(buf@ =~= spec_overwrite(old(buf)@, 0, spec_packet_header_bytes(*self)));
    }

    /// Reads a header; `None` when `buf` is shorter than one or does not start with `HT`.
    pub fn parse(buf: &[u8]) -> (r: Option<Self>)
        ensures
            r == spec_parse_header(buf@),
    {
        if buf.len() < HEADER_SIZE {
            return None;
        }
        if buf[0] != 0x48 || buf[1] != 0x54 {
            return None;
        }
        let session_id: u32 = get_be_u32(buf, 2);
        let sequence: u64 = get_be_u64(buf, 6);
        let flags: u16 = get_be_u16(buf, 14);
        Some(PacketHeader { session_id, sequence, flags })
    }
}

/// A packet ready to send: header and sealed payload.
pub struct DataPacket {
    pub header: PacketHeader,
    pub encrypted_payload: Vec<u8>,
}

/// The bytes of a packet on the wire.
pub open spec fn spec_packet_bytes(header: PacketHeader, payload: Seq<u8>) -> Seq<u8> {
    spec_packet_header_bytes(header) + payload
}

impl DataPacket {
    /// The packet on the wire: header, then payload.
    pub fn to_bytes(&self) -> (bytes: Vec<u8>)
        ensures
            bytes@ == spec_packet_bytes(self.header, self.encrypted_payload@),
    {
        let mut head: [u8; 16] = [0u8; 16];
        self.header.write_to(&mut head);
        let mut bytes: Vec<u8> = Vec::new();
        bytes.extend_from_slice(head.as_slice());
        bytes.extend_from_slice(self.encrypted_payload.as_slice());
        assert(bytes@ =~= spec_packet_bytes(self.header, self.encrypted_payload@));
        bytes
    }

    /// Reads a packet; `None` when there is no header or nothing behind it.
    pub fn from_bytes(buf: &[u8]) -> (r: Option<Self>)
        ensures
            r is Some <==> spec_parse_header(buf@) is Some && buf@.len() > HEADER_SIZE,
            r matches Some(p) ==> {
                &&& Some(p.header) == spec_parse_header(buf@)
                &&& p.encrypted_payload@ == buf@.subrange(HEADER_SIZE as int, buf@.len() as int)
            },
    {
        let header = match PacketHeader::parse(buf) {
            Some(h) => h,
            None => {
                return None;
            },
        };
        if buf.len() <= HEADER_SIZE {
            return None;
        }
        let encrypted_payload = vstd::slice::slice_to_vec(
            vstd::slice::slice_subrange(buf, HEADER_SIZE, buf.len()),
        );
        Some(DataPacket { header, encrypted_payload })
    }
}

/// A header that was written is read back as it was, whatever follows it.
pub proof fn lemma_header_roundtrip(h: PacketHeader, rest: Seq<u8>)
    ensures
        spec_packet_header_bytes(h).len() == HEADER_SIZE,
        spec_parse_header(spec_packet_header_bytes(h) + rest) == Some(h),
{
    let b = spec_packet_header_bytes(h) + rest;
    lemma_be_roundtrip(h.flags, h.session_id, h.sequence);
    assert(b.subrange(2, 6) =~= spec_be_u32(h.session_id));
    assert(b.subrange(6, 14) =~= spec_be_u64(h.sequence));
    assert(b.subrange(14, 16) =~= spec_be_u16(h.flags));
}

/// A packet with a payload that was put on the wire is read back as it was.
pub proof fn lemma_packet_roundtrip(h: PacketHeader, payload: Seq<u8>)
    requires
        payload.len() > 0,
    ensures
        spec_parse_header(spec_packet_bytes(h, payload)) == Some(h),
        spec_packet_bytes(h, payload).len() > HEADER_SIZE,
        spec_packet_bytes(h, payload).subrange(
            HEADER_SIZE as int,
            spec_packet_bytes(h, payload).len() as int,
        ) == payload,
{
    lemma_header_roundtrip(h, payload);
    let b = spec_packet_bytes(h, payload);
    assert(b.subrange(HEADER_SIZE as int, b.len() as int) =~= payload);
}

} // verus!
