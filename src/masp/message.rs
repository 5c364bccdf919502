//! The on-wire packet: a ten-byte header followed by a payload.

use crate::buffer::{
    be32, buffer_to_vec, bytes_mut_contents, new_buffer, put_slice, put_u32, put_u8,
};
use vstd::prelude::*;
use vstd::slice::{slice_subrange, slice_to_vec};

verus! {

/// "MASP" in ASCII.
pub const MASP_MAGIC_NUMBER: [u8; 4] = [0x4D, 0x41, 0x53, 0x50];

pub const MASP_VERSION: u8 = 0x01;

/// Magic, version, type and sequence number.
pub const HEADER_LEN: usize = 10;

#[derive(Debug, Clone, Copy, PartialEq, Eq, Structural)]
pub enum PacketType {
    HandshakeRequest,
    HandshakeAck,
    HandshakeFinalAck,
    TextData,
    AudioData,
    VideoData,
    Ack,
    RetransmissionRequest,
    Punch,
}

/// Why a datagram is not a packet.
#[derive(Debug, Clone, Copy, PartialEq, Eq, Structural)]
pub enum MalformedPacket {
    /// Fewer than ten bytes.
    TooShort,
    /// The first four bytes are not "MASP".
    BadMagic,
    /// The version byte is not 1.
    UnsupportedVersion,
    /// The type byte names no packet type.
    UnknownType,
    /// The payload is too short for what the packet type carries.
    ShortPayload,
}

impl PacketType {
    /// The type byte on the wire.
    pub open spec fn spec_code(self) -> u8 {
        match self {
            PacketType::HandshakeRequest => 0x01,
            PacketType::HandshakeAck => 0x02,
            PacketType::HandshakeFinalAck => 0x03,
            PacketType::TextData => 0x10,
            PacketType::AudioData => 0x20,
            PacketType::VideoData => 0x30,
            PacketType::Ack => 0x40,
            PacketType::RetransmissionRequest => 0x50,
            PacketType::Punch => 0x60,
        }
    }

    /// The packet type whose type byte is `b`, if any.
    pub open spec fn spec_from_code(b: u8) -> Option<PacketType> {
        if b == 0x01 {
            Some(PacketType::HandshakeRequest)
        } else if b == 0x02 {
            Some(PacketType::HandshakeAck)
        } else if b == 0x03 {
            Some(PacketType::HandshakeFinalAck)
        } else if b == 0x10 {
            Some(PacketType::TextData)
        } else if b == 0x20 {
            Some(PacketType::AudioData)
        } else if b == 0x30 {
            Some(PacketType::VideoData)
        } else if b == 0x40 {
            Some(PacketType::Ack)
        } else if b == 0x50 {
            Some(PacketType::RetransmissionRequest)
        } else if b == 0x60 {
            Some(PacketType::Punch)
        } else {
            None
        }
    }

    /// Packets that carry media or text.
    pub open spec fn spec_is_data(self) -> bool {
        self == PacketType::TextData || self == PacketType::AudioData || self
            == PacketType::VideoData
    }

    pub fn code(self) -> (r: u8)
        ensures
            r == self.spec_code(),
    {
        match self {
            PacketType::HandshakeRequest => 0x01,
            PacketType::HandshakeAck => 0x02,
            PacketType::HandshakeFinalAck => 0x03,
            PacketType::TextData => 0x10,
            PacketType::AudioData => 0x20,
            PacketType::VideoData => 0x30,
            PacketType::Ack => 0x40,
            PacketType::RetransmissionRequest => 0x50,
            PacketType::Punch => 0x60,
        }
    }

    /// The packet type of a type byte; `UnknownType` for a byte outside the
    /// enumeration.
    pub fn try_from(value: u8) -> (r: Result<PacketType, MalformedPacket>)
        ensures
            r matches Ok(t) ==> PacketType::spec_from_code(value) == Some(t),
            r matches Err(e) ==> PacketType::spec_from_code(value) is None && e
                == MalformedPacket::UnknownType,
    {
        match value {
            0x01 => Ok(PacketType::HandshakeRequest),
            0x02 => Ok(PacketType::HandshakeAck),
            0x03 => Ok(PacketType::HandshakeFinalAck),
            0x10 => Ok(PacketType::TextData),
            0x20 => Ok(PacketType::AudioData),
            0x30 => Ok(PacketType::VideoData),
            0x40 => Ok(PacketType::Ack),
            0x50 => Ok(PacketType::RetransmissionRequest),
            0x60 => Ok(PacketType::Punch),
            _ => Err(MalformedPacket::UnknownType),
        }
    }

    pub fn is_data(self) -> (r: bool)
        ensures
            r == self.spec_is_data(),
    {
        match self {
            PacketType::TextData | PacketType::AudioData | PacketType::VideoData => true,
            _ => false,
        }
    }
}

/// The abstract content of a packet.
pub struct PacketModel {
    pub version: u8,
    pub packet_type: PacketType,
    pub sequence_number: u32,
    pub payload: Seq<u8>,
}

#[derive(Debug)]
pub struct MaspPacket {
    pub version: u8,
    pub packet_type: PacketType,
    pub sequence_number: u32,
    pub payload: Vec<u8>,
}

impl View for MaspPacket {
    type V = PacketModel;

    open spec fn view(&self) -> PacketModel {
        PacketModel {
            version: self.version,
            packet_type: self.packet_type,
            sequence_number: self.sequence_number,
            payload: self.payload@,
        }
    }
}

/// The big-endian number that four bytes spell.
pub open spec fn be32_value(b: Seq<u8>) -> u32 {
    ((b[0] as u32) << 24u32) | ((b[1] as u32) << 16u32) | ((b[2] as u32) << 8u32) | (b[3] as u32)
}

/// The bytes of a packet on the wire.
pub open spec fn wire_bytes(p: PacketModel) -> Seq<u8> {
    MASP_MAGIC_NUMBER@ + seq![p.version, p.packet_type.spec_code()] + be32(p.sequence_number)
        + p.payload
}

/// What a datagram parses to.
pub open spec fn spec_parse(b: Seq<u8>) -> Result<PacketModel, MalformedPacket> {
    if b.len() < 10 {
        Err(MalformedPacket::TooShort)
    } else if b.subrange(0, 4) != MASP_MAGIC_NUMBER@ {
        Err(MalformedPacket::BadMagic)
    } else if b[4] != MASP_VERSION {
        Err(MalformedPacket::UnsupportedVersion)
    } else if PacketType::spec_from_code(b[5]) is None {
        Err(MalformedPacket::UnknownType)
    } else {
        Ok(
            PacketModel {
                version: b[4],
                packet_type: PacketType::spec_from_code(b[5])->0,
                sequence_number: be32_value(b.subrange(6, 10)),
                payload: b.subrange(10, b.len() as int),
            },
        )
    }
}

/// The abstract result of a parse.
pub open spec fn parse_result_view(r: Result<MaspPacket, MalformedPacket>) -> Result<
    PacketModel,
    MalformedPacket,
> {
    match r {
        Ok(p) => Ok(p@),
        Err(e) => Err(e),
    }
}

/// A packet can be sent when its version is the protocol's and it fits in
/// memory with its header.
pub open spec fn is_outbound(p: PacketModel) -> bool {
    p.version == MASP_VERSION && p.payload.len() + 10 <= isize::MAX
}

proof fn lemma_be32_round_trip(n: u32)
    ensures
        be32_value(be32(n)) == n,
{
    let b = be32(n);
    assert(b[0] == (n >> 24u32) as u8);
    assert(b[1] == (n >> 16u32) as u8);
    assert(b[2] == (n >> 8u32) as u8);
    assert(b[3] == n as u8);
    assert(((((n >> 24u32) as u8) as u32) << 24u32) | ((((n >> 16u32) as u8) as u32) << 16u32)
        | ((((n >> 8u32) as u8) as u32) << 8u32) | ((n as u8) as u32) == n) by (bit_vector);
}

impl MaspPacket {
    pub fn new(packet_type: PacketType, sequence_number: u32, payload: Vec<u8>) -> (r: Self)
        ensures
            r.version == MASP_VERSION,
            r.packet_type == packet_type,
            r.sequence_number == sequence_number,
            r.payload@ == payload@,
    {
        MaspPacket { version: MASP_VERSION, packet_type, sequence_number, payload }
    }

    /// A copy with the same content.
    pub fn duplicate(&self) -> (r: Self)
        ensures
            r@ == self@,
    {
        MaspPacket {
            version: self.version,
            packet_type: self.packet_type,
            sequence_number: self.sequence_number,
            payload: self.payload.clone(),
        }
    }

    /// Magic, version, type byte, big-endian sequence number, payload.
    pub fn serialize(&self) -> (r: Vec<u8>)
        requires
            self.payload@.len() + 10 <= isize::MAX,
        ensures
            r@ == wire_bytes(self@),
    {
        let mut buffer = new_buffer(10 + self.payload.len());
        put_slice(&mut buffer, &MASP_MAGIC_NUMBER);
        put_u8(&mut buffer, self.version);
        put_u8(&mut buffer, self.packet_type.code());
        put_u32(&mut buffer, self.sequence_number);
        put_slice(&mut buffer, self.payload.as_slice());
        let r = buffer_to_vec(&buffer);
        assert(r@ =~= wire_bytes(self@));
        r
    }

    /// Parses a datagram; fails with the first rule that it breaks.
    pub fn deserialize(buffer: &[u8]) -> (r: Result<Self, MalformedPacket>)
        ensures
            parse_result_view(r) == spec_parse(buffer@),
    {
        if buffer.len() < HEADER_LEN {
            return Err(MalformedPacket::TooShort);
        }
        if buffer[0] != MASP_MAGIC_NUMBER[0] || buffer[1] != MASP_MAGIC_NUMBER[1] || buffer[2]
            != MASP_MAGIC_NUMBER[2] || buffer[3] != MASP_MAGIC_NUMBER[3] {
            assert(buffer@.subrange(0, 4) != MASP_MAGIC_NUMBER@) by {
                if buffer@.subrange(0, 4) == MASP_MAGIC_NUMBER@ {
                    assert(buffer@.subrange(0, 4)[0] == buffer@[0]);
                    assert(buffer@.subrange(0, 4)[1] == buffer@[1]);
                    assert(buffer@.subrange(0, 4)[2] == buffer@[2]);
                    assert(buffer@.subrange(0, 4)[3] == buffer@[3]);
                }
            }
            return Err(MalformedPacket::BadMagic);
        }
        assert(buffer@.subrange(0, 4) =~= MASP_MAGIC_NUMBER@);
        let version = buffer[4];
        if version != MASP_VERSION {
            return Err(MalformedPacket::UnsupportedVersion);
        }
        let packet_type = match PacketType::try_from(buffer[5]) {
            Ok(t) => t,
            Err(e) => {
                return Err(e);
            },
        };
        let sequence_number = u32_from_be(buffer[6], buffer[7], buffer[8], buffer[9]);
        assert(buffer@.subrange(6, 10) =~= seq![buffer[6], buffer[7], buffer[8], buffer[9]]);
        let payload = slice_to_vec(slice_subrange(buffer, HEADER_LEN, buffer.len()));
        Ok(MaspPacket { version, packet_type, sequence_number, payload })
    }
}

/// The big-endian number that four bytes spell.
pub fn u32_from_be(b0: u8, b1: u8, b2: u8, b3: u8) -> (r: u32)
    ensures
        r == be32_value(seq![b0, b1, b2, b3]),
{
    ((b0 as u32) << 24u32) | ((b1 as u32) << 16u32) | ((b2 as u32) << 8u32) | (b3 as u32)
}

/// The four big-endian bytes of `n`.
pub fn u32_to_be(n: u32) -> (r: Vec<u8>)
    ensures
        r@ == be32(n),
{
    let v = vec![(n >> 24u32) as u8, (n >> 16u32) as u8, (n >> 8u32) as u8, n as u8];
    assert(v@ =~= be32(n));
    v
}

/// Parsing what was serialised gives the packet back, for every packet that
/// can be sent.
pub proof fn lemma_parse_serialize(p: PacketModel)
    requires
        is_outbound(p),
    ensures
        spec_parse(wire_bytes(p)) == Ok::<PacketModel, MalformedPacket>(p),
{
    let b = wire_bytes(p);
    assert(b.subrange(0, 4) =~= MASP_MAGIC_NUMBER@);
    assert(b[4] == p.version);
    assert(b[5] == p.packet_type.spec_code());
    assert(b.subrange(6, 10) =~= be32(p.sequence_number));
    lemma_be32_round_trip(p.sequence_number);
    assert(b.subrange(10, b.len() as int) =~= p.payload);
    assert(PacketType::spec_from_code(p.packet_type.spec_code()) == Some(p.packet_type));
}

/// A datagram whose first four bytes are not "MASP" is malformed.
pub proof fn lemma_bad_magic_is_malformed(b: Seq<u8>)
    requires
        b.len() < 4 || b.subrange(0, 4) != MASP_MAGIC_NUMBER@,
    ensures
        spec_parse(b) is Err,
        b.len() >= 10 ==> spec_parse(b) == Err::<PacketModel, MalformedPacket>(
            MalformedPacket::BadMagic,
        ),
{
}

} // verus!
