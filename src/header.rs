use vstd::prelude::*;

use crate::error::ParseError;

verus! {

/// Size in bytes of the fixed packet header.
pub const HEADER_SIZE: usize = 20;

/// The kind of a packet, held in the high nibble of the header's first byte.
#[derive(Debug, Clone, Copy, PartialEq, Eq, Structural)]
pub enum PacketType {
    Data,
    Fin,
    State,
    Reset,
    Syn,
}

impl PacketType {
    /// The wire code of the packet type.
    pub open spec fn spec_code(self) -> u8 {
        match self {
            PacketType::Data => 0,
            PacketType::Fin => 1,
            PacketType::State => 2,
            PacketType::Reset => 3,
            PacketType::Syn => 4,
        }
    }

    /// The packet type with the given wire code, if any.
    pub open spec fn spec_from_code(c: u8) -> Option<PacketType> {
        if c == 0 {
            Some(PacketType::Data)
        } else if c == 1 {
            Some(PacketType::Fin)
        } else if c == 2 {
            Some(PacketType::State)
        } else if c == 3 {
            Some(PacketType::Reset)
        } else if c == 4 {
            Some(PacketType::Syn)
        } else {
            None
        }
    }

    pub fn code(self) -> (r: u8)
        ensures
            r == self.spec_code(),
    {
        match self {
            PacketType::Data => 0,
            PacketType::Fin => 1,
            PacketType::State => 2,
            PacketType::Reset => 3,
            PacketType::Syn => 4,
        }
    }

    pub fn from_code(c: u8) -> (r: Option<PacketType>)
        ensures
            r == Self::spec_from_code(c),
    {
        if c == 0 {
            Some(PacketType::Data)
        } else if c == 1 {
            Some(PacketType::Fin)
        } else if c == 2 {
            Some(PacketType::State)
        } else if c == 3 {
            Some(PacketType::Reset)
        } else if c == 4 {
            Some(PacketType::Syn)
        } else {
            None
        }
    }
}

/// The high nibble of a byte.
pub open spec fn high_nibble(b: u8) -> u8 {
    b >> 4
}

/// The low nibble of a byte.
pub open spec fn low_nibble(b: u8) -> u8 {
    b & 0x0f
}

/// The two bytes of `v`, most significant first.
pub open spec fn u16_be(v: u16) -> Seq<u8> {
    seq![(v >> 8) as u8, v as u8]
}

/// The four bytes of `v`, most significant first.
pub open spec fn u32_be(v: u32) -> Seq<u8> {
    seq![(v >> 24) as u8, (v >> 16) as u8, (v >> 8) as u8, v as u8]
}

/// The big-endian integer held in `b[i]`, `b[i + 1]`.
pub open spec fn be_u16(b: Seq<u8>, i: int) -> u16 {
    ((b[i] as u16) << 8u16) | (b[i + 1] as u16)
}

/// The big-endian integer held in `b[i]` to `b[i + 3]`.
pub open spec fn be_u32(b: Seq<u8>, i: int) -> u32 {
    ((b[i] as u32) << 24u32) | ((b[i + 1] as u32) << 16u32) | ((b[i + 2] as u32) << 8u32) | (
    b[i + 3] as u32)
}

/// The fixed header of a packet. Each field holds its value in host order;
/// the wire form is big-endian.
#[derive(Debug, Clone, Copy, PartialEq, Eq, Structural)]
pub struct PacketHeader {
    /// Packet type in the high nibble, protocol version in the low nibble.
    pub type_ver: u8,
    /// Type of the first extension of the chain, 0 when there is none.
    pub extension: u8,
    pub connection_id: u16,
    pub timestamp_microseconds: u32,
    pub timestamp_difference_microseconds: u32,
    pub wnd_size: u32,
    pub seq_nr: u16,
    pub ack_nr: u16,
}

impl PacketHeader {
    /// The 20 bytes of the header on the wire.
    pub open spec fn spec_bytes(self) -> Seq<u8> {
        seq![self.type_ver, self.extension] + u16_be(self.connection_id) + u32_be(
            self.timestamp_microseconds,
        ) + u32_be(self.timestamp_difference_microseconds) + u32_be(self.wnd_size) + u16_be(
            self.seq_nr,
        ) + u16_be(self.ack_nr)
    }

    /// The header read from the first 20 bytes of `b`.
    pub open spec fn from_bytes(b: Seq<u8>) -> PacketHeader
        recommends
            b.len() >= 20,
    {
        PacketHeader {
            type_ver: b[0],
            extension: b[1],
            connection_id: be_u16(b, 2),
            timestamp_microseconds: be_u32(b, 4),
            timestamp_difference_microseconds: be_u32(b, 8),
            wnd_size: be_u32(b, 12),
            seq_nr: be_u16(b, 16),
            ack_nr: be_u16(b, 18),
        }
    }

    /// The packet type named by the high nibble of the first byte.
    pub open spec fn spec_type(self) -> Result<PacketType, ParseError> {
        match PacketType::spec_from_code(high_nibble(self.type_ver)) {
            Some(t) => Ok(t),
            None => Err(ParseError::UnknownPacketType),
        }
    }

    /// The protocol version, the low nibble of the first byte.
    pub open spec fn spec_version(self) -> u8 {
        low_nibble(self.type_ver)
    }

    /// Set type of packet to the specified type, keeping the version.
    pub fn set_type(&mut self, t: PacketType)
        ensures
            *final(self) == (PacketHeader {
                type_ver: (t.spec_code() << 4u8) | low_nibble(old(self).type_ver),
                ..*old(self)
            }),
            final(self).spec_type() == Ok::<PacketType, ParseError>(t),
            final(self).spec_version() == old(self).spec_version(),
    {
        let c = t.code();
        let tv = self.type_ver;
        let version = 0x0F & tv;
        self.type_ver = (c << 4) | version;
        proof {
            assert(((c << 4u8) | (0x0Fu8 & tv)) >> 4u8 == c) by (bit_vector)
                requires
                    c <= 4,
            ;
            assert(((c << 4u8) | (0x0Fu8 & tv)) & 0x0fu8 == tv & 0x0fu8) by (bit_vector);
            assert(0x0Fu8 & tv == tv & 0x0fu8) by (bit_vector);
        }
    }

    /// The packet type, or `UnknownPacketType` where the nibble names none.
    pub fn get_type(&self) -> (r: Result<PacketType, ParseError>)
        ensures
            r == self.spec_type(),
    {
        match PacketType::from_code(self.type_ver >> 4) {
            Some(t) => Ok(t),
            None => Err(ParseError::UnknownPacketType),
        }
    }

    pub fn get_version(&self) -> (r: u8)
        ensures
            r == self.spec_version(),
    {
        self.type_ver & 0x0F
    }

    /// Return the packet header as its 20 bytes on the wire.
    pub fn bytes(&self) -> (r: Vec<u8>)
        ensures
            r@ == self.spec_bytes(),
    {
        let mut buf: Vec<u8> = Vec::with_capacity(HEADER_SIZE);
        buf.push(self.type_ver);
        buf.push(self.extension);
        push_u16_be(&mut buf, self.connection_id);
        push_u32_be(&mut buf, self.timestamp_microseconds);
        push_u32_be(&mut buf, self.timestamp_difference_microseconds);
        push_u32_be(&mut buf, self.wnd_size);
        push_u16_be(&mut buf, self.seq_nr);
        push_u16_be(&mut buf, self.ack_nr);
        assert(buf@ =~= self.spec_bytes());
        buf
    }

    pub fn len(&self) -> (r: usize)
        ensures
            r == HEADER_SIZE,
    {
        HEADER_SIZE
    }

    /// Read the first 20 bytes of `buf`, in network byte order, as a header.
    pub fn decode(buf: &[u8]) -> (r: PacketHeader)
        requires
            buf@.len() >= HEADER_SIZE,
        ensures
            r == Self::from_bytes(buf@),
    {
        PacketHeader {
            type_ver: buf[0],
            extension: buf[1],
            connection_id: read_u16_be(buf, 2),
            timestamp_microseconds: read_u32_be(buf, 4),
            timestamp_difference_microseconds: read_u32_be(buf, 8),
            wnd_size: read_u32_be(buf, 12),
            seq_nr: read_u16_be(buf, 16),
            ack_nr: read_u16_be(buf, 18),
        }
    }
}

fn push_u16_be(buf: &mut Vec<u8>, v: u16)
    ensures
        final(buf)@ == old(buf)@ + u16_be(v),
{
    buf.push((v >> 8) as u8);
    buf.push(v as u8);
    assert(final(buf)@ =~= old(buf)@ + u16_be(v));
}

fn push_u32_be(buf: &mut Vec<u8>, v: u32)
    ensures
        final(buf)@ == old(buf)@ + u32_be(v),
{
    buf.push((v >> 24) as u8);
    buf.push((v >> 16) as u8);
    buf.push((v >> 8) as u8);
    buf.push(v as u8);
    assert(final(buf)@ =~= old(buf)@ + u32_be(v));
}

fn read_u16_be(buf: &[u8], i: usize) -> (r: u16)
    requires
        i + 2 <= buf@.len(),
    ensures
        r == be_u16(buf@, i as int),
{
    ((buf[i] as u16) << 8) | (buf[i + 1] as u16)
}

fn read_u32_be(buf: &[u8], i: usize) -> (r: u32)
    requires
        i + 4 <= buf@.len(),
    ensures
        r == be_u32(buf@, i as int),
{
    ((buf[i] as u32) << 24) | ((buf[i + 1] as u32) << 16) | ((buf[i + 2] as u32) << 8) | (buf[i
        + 3] as u32)
}

proof fn lemma_u16_be_bytes(v: u16)
    ensures
        ((((v >> 8u16) as u8) as u16) << 8u16) | (((v as u8) as u16)) == v,
{
    assert(((((v >> 8u16) as u8) as u16) << 8u16) | (((v as u8) as u16)) == v) by (bit_vector);
}

proof fn lemma_u32_be_bytes(v: u32)
    ensures
        ((((v >> 24u32) as u8) as u32) << 24u32) | ((((v >> 16u32) as u8) as u32) << 16u32) | ((((
        v >> 8u32) as u8) as u32) << 8u32) | ((v as u8) as u32) == v,
{
    assert(((((v >> 24u32) as u8) as u32) << 24u32) | ((((v >> 16u32) as u8) as u32) << 16u32) | ((
    ((v >> 8u32) as u8) as u32) << 8u32) | ((v as u8) as u32) == v) by (bit_vector);
}

proof fn lemma_be_u16_bytes(a: u8, b: u8)
    ensures
        ((((a as u16) << 8u16) | (b as u16)) >> 8u16) as u8 == a,
        (((a as u16) << 8u16) | (b as u16)) as u8 == b,
{
    assert(((((a as u16) << 8u16) | (b as u16)) >> 8u16) as u8 == a) by (bit_vector);
    assert((((a as u16) << 8u16) | (b as u16)) as u8 == b) by (bit_vector);
}

proof fn lemma_be_u32_bytes(a: u8, b: u8, c: u8, d: u8)
    ensures
        ({
            let v = ((a as u32) << 24u32) | ((b as u32) << 16u32) | ((c as u32) << 8u32) | (
            d as u32);
            &&& (v >> 24u32) as u8 == a
            &&& (v >> 16u32) as u8 == b
            &&& (v >> 8u32) as u8 == c
            &&& v as u8 == d
        }),
{
    assert({
        let v = ((a as u32) << 24u32) | ((b as u32) << 16u32) | ((c as u32) << 8u32) | (d as u32);
        &&& (v >> 24u32) as u8 == a
        &&& (v >> 16u32) as u8 == b
        &&& (v >> 8u32) as u8 == c
        &&& v as u8 == d
    }) by (bit_vector);
}

/// Reading a header back from its wire bytes gives the same header.
pub proof fn lemma_header_round_trip(h: PacketHeader)
    ensures
        h.spec_bytes().len() == HEADER_SIZE,
        PacketHeader::from_bytes(h.spec_bytes()) == h,
{
    let b = h.spec_bytes();
    lemma_u16_be_bytes(h.connection_id);
    lemma_u32_be_bytes(h.timestamp_microseconds);
    lemma_u32_be_bytes(h.timestamp_difference_microseconds);
    lemma_u32_be_bytes(h.wnd_size);
    lemma_u16_be_bytes(h.seq_nr);
    lemma_u16_be_bytes(h.ack_nr);
    assert(b =~= seq![
        h.type_ver, h.extension,
        (h.connection_id >> 8) as u8, h.connection_id as u8,
        (h.timestamp_microseconds >> 24) as u8, (h.timestamp_microseconds >> 16) as u8,
        (h.timestamp_microseconds >> 8) as u8, h.timestamp_microseconds as u8,
        (h.timestamp_difference_microseconds >> 24) as u8,
        (h.timestamp_difference_microseconds >> 16) as u8,
        (h.timestamp_difference_microseconds >> 8) as u8,
        h.timestamp_difference_microseconds as u8,
        (h.wnd_size >> 24) as u8, (h.wnd_size >> 16) as u8,
        (h.wnd_size >> 8) as u8, h.wnd_size as u8,
        (h.seq_nr >> 8) as u8, h.seq_nr as u8,
        (h.ack_nr >> 8) as u8, h.ack_nr as u8,
    ]);
}

/// Writing out the header read from a buffer gives back the buffer's first
/// 20 bytes.
pub proof fn lemma_header_bytes_of_decoded(b: Seq<u8>)
    requires
        b.len() >= HEADER_SIZE,
    ensures
        PacketHeader::from_bytes(b).spec_bytes() == b.subrange(0, HEADER_SIZE as int),
{
    let h = PacketHeader::from_bytes(b);
    lemma_be_u16_bytes(b[2], b[3]);
    lemma_be_u32_bytes(b[4], b[5], b[6], b[7]);
    lemma_be_u32_bytes(b[8], b[9], b[10], b[11]);
    lemma_be_u32_bytes(b[12], b[13], b[14], b[15]);
    lemma_be_u16_bytes(b[16], b[17]);
    lemma_be_u16_bytes(b[18], b[19]);
    assert(h.spec_bytes() =~= b.subrange(0, HEADER_SIZE as int));
}

} // verus!
