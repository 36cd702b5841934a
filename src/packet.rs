use vstd::prelude::*;
use vstd::slice::{slice_subrange, slice_to_vec};

use crate::error::ParseError;
use crate::extension::{
    append_bytes, chain_bytes, chain_bytes_from, code_at, record_bytes, views_of, walk_chain, Extension,
    ExtensionType, ExtensionView,
};
use crate::header::{PacketHeader, PacketType, HEADER_SIZE};

verus! {

/// What a packet is: its header, its known extensions in wire order, and its
/// payload.
pub struct PacketView {
    pub header: PacketHeader,
    pub extensions: Seq<ExtensionView>,
    pub payload: Seq<u8>,
}

/// A packet: header, extensions and payload.
#[derive(Debug, Clone)]
pub struct Packet {
    pub header: PacketHeader,
    pub extensions: Vec<Extension>,
    pub payload: Vec<u8>,
}

impl View for Packet {
    type V = PacketView;

    open spec fn view(&self) -> PacketView {
        PacketView {
            header: self.header,
            extensions: views_of(self.extensions@),
            payload: self.payload@,
        }
    }
}

/// The packet that `buf` holds, or the first error met in reading it: the
/// length of the header, the version, then the extension chain.
pub open spec fn spec_decode(buf: Seq<u8>) -> Result<PacketView, ParseError> {
    if buf.len() < HEADER_SIZE {
        Err(ParseError::InvalidPacketLength)
    } else {
        let h = PacketHeader::from_bytes(buf);
        if h.spec_version() != 1 {
            Err(ParseError::UnsupportedVersion)
        } else if buf.len() == HEADER_SIZE && h.extension != 0 {
            Err(ParseError::InvalidExtensionLength)
        } else {
            match walk_chain(buf, HEADER_SIZE as int, h.extension) {
                Ok((exts, end)) => Ok(
                    PacketView { header: h, extensions: exts, payload: buf.subrange(end, buf.len() as int) },
                ),
                Err(e) => Err(e),
            }
        }
    }
}

/// The result of a chain walk, with `acc` put before the extensions it reads.
pub open spec fn after(acc: Seq<ExtensionView>, r: Result<(Seq<ExtensionView>, int), ParseError>) -> Result<
    (Seq<ExtensionView>, int),
    ParseError,
> {
    match r {
        Ok((rest, fin)) => Ok((acc + rest, fin)),
        Err(e) => Err(e),
    }
}

/// The total length of the records of extensions `i` onwards: each has a
/// next-type byte, a length byte and its data.
pub open spec fn records_len_from(exts: Seq<ExtensionView>, i: int) -> nat
    decreases exts.len() - i,
{
    if 0 <= i < exts.len() {
        2 + exts[i].1.len() + records_len_from(exts, i + 1)
    } else {
        0
    }
}

/// The header as it goes on the wire: its extension field names the first
/// extension of the chain.
pub open spec fn wire_header(p: PacketView) -> PacketHeader {
    PacketHeader { extension: code_at(p.extensions, 0), ..p.header }
}

/// The bytes of a packet on the wire: header, extension chain, payload.
pub open spec fn spec_encode(p: PacketView) -> Seq<u8> {
    wire_header(p).spec_bytes() + chain_bytes(p.extensions) + p.payload
}

impl PacketView {
    /// The length of the packet on the wire.
    pub open spec fn spec_len(self) -> int {
        HEADER_SIZE + self.payload.len() + records_len_from(self.extensions, 0)
    }
}

/// Every extension of the sequence has well-formed data.
pub open spec fn extensions_wf(exts: Seq<ExtensionView>) -> bool {
    forall|i: int| 0 <= i < exts.len() ==> crate::extension::extension_data_wf(#[trigger] exts[i].1)
}

impl Packet {
    /// Every extension's data is at least 4 bytes long and a multiple of 4.
    pub open spec fn wf(&self) -> bool {
        extensions_wf(self@.extensions)
    }

    /// A new, empty packet: a Data packet of version 1, every other header
    /// field zero, no extension, no payload.
    pub fn new() -> (r: Packet)
        ensures
            r@ == (PacketView {
                header: PacketHeader {
                    type_ver: 0x01,
                    extension: 0,
                    connection_id: 0,
                    timestamp_microseconds: 0,
                    timestamp_difference_microseconds: 0,
                    wnd_size: 0,
                    seq_nr: 0,
                    ack_nr: 0,
                },
                extensions: seq![],
                payload: seq![],
            }),
            r@.header.spec_type() == Ok::<PacketType, ParseError>(PacketType::Data),
            r@.header.spec_version() == 1,
            r.wf(),
    {
        let r = Packet {
            header: PacketHeader {
                type_ver: (PacketType::Data.code() << 4) | 1,
                extension: 0,
                connection_id: 0,
                timestamp_microseconds: 0,
                timestamp_difference_microseconds: 0,
                wnd_size: 0,
                seq_nr: 0,
                ack_nr: 0,
            },
            extensions: Vec::new(),
            payload: Vec::new(),
        };
        assert(((0u8 << 4u8) | 1u8) == 0x01u8) by (bit_vector);
        assert((0x01u8 >> 4u8) == 0u8 && (0x01u8 & 0x0fu8) == 1u8) by (bit_vector);
        assert(r@.extensions =~= seq![]);
        r
    }

    /// Set the packet type, keeping the version.
    pub fn set_type(&mut self, t: PacketType)
        ensures
            final(self).header == (PacketHeader {
                type_ver: (t.spec_code() << 4u8) | crate::header::low_nibble(old(self).header.type_ver),
                ..old(self).header
            }),
            final(self).header.spec_type() == Ok::<PacketType, ParseError>(t),
            final(self).header.spec_version() == old(self).header.spec_version(),
            final(self).extensions == old(self).extensions,
            final(self).payload == old(self).payload,
    {
        self.header.set_type(t);
    }

    /// The packet type, or `UnknownPacketType` where the header names none.
    pub fn get_type(&self) -> (r: Result<PacketType, ParseError>)
        ensures
            r == self.header.spec_type(),
    {
        self.header.get_type()
    }

    pub fn seq_nr(&self) -> (r: u16)
        ensures
            r == self.header.seq_nr,
    {
        self.header.seq_nr
    }

    pub fn ack_nr(&self) -> (r: u16)
        ensures
            r == self.header.ack_nr,
    {
        self.header.ack_nr
    }

    pub fn connection_id(&self) -> (r: u16)
        ensures
            r == self.header.connection_id,
    {
        self.header.connection_id
    }

    pub fn wnd_size(&self) -> (r: u32)
        ensures
            r == self.header.wnd_size,
    {
        self.header.wnd_size
    }

    pub fn timestamp_microseconds(&self) -> (r: u32)
        ensures
            r == self.header.timestamp_microseconds,
    {
        self.header.timestamp_microseconds
    }

    pub fn timestamp_difference_microseconds(&self) -> (r: u32)
        ensures
            r == self.header.timestamp_difference_microseconds,
    {
        self.header.timestamp_difference_microseconds
    }

    pub fn set_seq_nr(&mut self, v: u16)
        ensures
            final(self).header == (PacketHeader { seq_nr: v, ..old(self).header }),
            final(self).extensions == old(self).extensions,
            final(self).payload == old(self).payload,
    {
        self.header.seq_nr = v;
    }

    pub fn set_ack_nr(&mut self, v: u16)
        ensures
            final(self).header == (PacketHeader { ack_nr: v, ..old(self).header }),
            final(self).extensions == old(self).extensions,
            final(self).payload == old(self).payload,
    {
        self.header.ack_nr = v;
    }

    pub fn set_connection_id(&mut self, v: u16)
        ensures
            final(self).header == (PacketHeader { connection_id: v, ..old(self).header }),
            final(self).extensions == old(self).extensions,
            final(self).payload == old(self).payload,
    {
        self.header.connection_id = v;
    }

    pub fn set_wnd_size(&mut self, v: u32)
        ensures
            final(self).header == (PacketHeader { wnd_size: v, ..old(self).header }),
            final(self).extensions == old(self).extensions,
            final(self).payload == old(self).payload,
    {
        self.header.wnd_size = v;
    }

    pub fn set_timestamp_microseconds(&mut self, v: u32)
        ensures
            final(self).header == (PacketHeader { timestamp_microseconds: v, ..old(self).header }),
            final(self).extensions == old(self).extensions,
            final(self).payload == old(self).payload,
    {
        self.header.timestamp_microseconds = v;
    }

    pub fn set_timestamp_difference_microseconds(&mut self, v: u32)
        ensures
            final(self).header == (PacketHeader {
                timestamp_difference_microseconds: v,
                ..old(self).header
            }),
            final(self).extensions == old(self).extensions,
            final(self).payload == old(self).payload,
    {
        self.header.timestamp_difference_microseconds = v;
    }

    /// Append a selective acknowledgment extension holding `bv`, and make the
    /// header's extension field name the first extension of the chain.
    pub fn set_sack(&mut self, bv: Vec<u8>)
        requires
            crate::extension::extension_data_wf(bv@),
        ensures
            final(self)@.extensions == old(self)@.extensions.push(
                (ExtensionType::SelectiveAck, bv@),
            ),
            final(self).header == (PacketHeader {
                extension: code_at(final(self)@.extensions, 0),
                ..old(self).header
            }),
            final(self).payload == old(self).payload,
            old(self).wf() ==> final(self).wf(),
    {
        let ghost bits = bv@;
        let extension = Extension { ty: ExtensionType::SelectiveAck, data: bv };
        self.extensions.push(extension);
        self.header.extension = self.extensions[0].ty.code();
        assert(self@.extensions =~= old(self)@.extensions.push(
            (ExtensionType::SelectiveAck, bits),
        ));
    }

    /// The bytes of the packet on the wire: the header, whose extension field
    /// names the first extension, then the extension chain, then the payload.
    pub fn bytes(&self) -> (r: Vec<u8>)
        ensures
            r@ == spec_encode(self@),
    {
        let ghost exts = self@.extensions;
        let mut header = self.header;
        header.extension = if self.extensions.len() > 0 {
            self.extensions[0].ty.code()
        } else {
            0
        };
        assert(header == wire_header(self@));
        let mut buf = header.bytes();
        let n = self.extensions.len();
        let mut i: usize = 0;
        while i < n
            invariant
                i <= n,
                n == exts.len(),
                exts == views_of(self.extensions@),
                buf@ + chain_bytes_from(exts, i as int) == header.spec_bytes() + chain_bytes(exts),
            decreases n - i,
        {
            let next: u8 = if i + 1 < n {
                self.extensions[i + 1].ty.code()
            } else {
                0
            };
            let ghost before = buf@;
            buf.push(next);
            let record = self.extensions[i].to_bytes();
            append_bytes(&mut buf, record.as_slice());
            proof {
                assert(next == code_at(exts, i + 1));
                assert(record@ == seq![exts[i as int].1.len() as u8] + exts[i as int].1);
                assert(chain_bytes_from(exts, i as int) == record_bytes(next, exts[i as int].1)
                    + chain_bytes_from(exts, i + 1));
                assert(before + chain_bytes_from(exts, i as int) =~= buf@ + chain_bytes_from(
                    exts,
                    i + 1,
                ));
            }
            i = i + 1;
        }
        assert(buf@ + seq![] =~= buf@);
        append_bytes(&mut buf, self.payload.as_slice());
        buf
    }

    /// The length of the packet on the wire.
    pub fn len(&self) -> (r: usize)
        requires
            self@.spec_len() <= usize::MAX,
        ensures
            r == self@.spec_len(),
    {
        let ghost exts = self@.extensions;
        let n = self.extensions.len();
        let mut ext_len: usize = 0;
        let mut i: usize = 0;
        while i < n
            invariant
                i <= n,
                n == exts.len(),
                exts == views_of(self.extensions@),
                ext_len + records_len_from(exts, i as int) == records_len_from(exts, 0),
                HEADER_SIZE + self.payload@.len() + records_len_from(exts, 0) <= usize::MAX,
            decreases n - i,
        {
            assert(records_len_from(exts, i as int) == 2 + exts[i as int].1.len()
                + records_len_from(exts, i + 1));
            ext_len = ext_len + self.extensions[i].len() + 1;
            i = i + 1;
        }
        self.header.len() + self.payload.len() + ext_len
    }

    /// Decode a byte slice and construct the equivalent packet. The bytes
    /// after the extension chain are all taken as payload.
    pub fn decode(buf: &[u8]) -> (r: Result<Packet, ParseError>)
        ensures
            match r {
                Ok(p) => spec_decode(buf@) == Ok::<PacketView, ParseError>(p@) && p.wf(),
                Err(e) => spec_decode(buf@) == Err::<PacketView, ParseError>(e),
            },
    {
        if buf.len() < HEADER_SIZE {
            return Err(ParseError::InvalidPacketLength);
        }
        let header = PacketHeader::decode(buf);
        if header.get_version() != 1 {
            return Err(ParseError::UnsupportedVersion);
        }
        let mut extensions: Vec<Extension> = Vec::new();
        let mut idx: usize = HEADER_SIZE;
        let mut kind: u8 = header.extension;

        if buf.len() == HEADER_SIZE && header.extension != 0 {
            return Err(ParseError::InvalidExtensionLength);
        }
        // Consume known extensions and skip over unknown ones.
        while idx < buf.len() && kind != 0
            invariant
                HEADER_SIZE <= idx <= buf@.len(),
                header == PacketHeader::from_bytes(buf@),
                header.spec_version() == 1,
                !(buf@.len() == HEADER_SIZE && header.extension != 0),
                walk_chain(buf@, HEADER_SIZE as int, header.extension) == after(
                    views_of(extensions@),
                    walk_chain(buf@, idx as int, kind),
                ),
                extensions_wf(views_of(extensions@)),
            decreases buf@.len() - idx,
        {
            if buf.len() - idx < 2 {
                return Err(ParseError::InvalidPacketLength);
            }
            let len = buf[idx + 1] as usize;
            let extension_start = idx + 2;
            // The length must be non-zero, a multiple of 4, and within the
            // buffer.
            if len == 0 || len % 4 != 0 || buf.len() - extension_start < len {
                return Err(ParseError::InvalidExtensionLength);
            }
            let payload_start = extension_start + len;
            let ghost acc = views_of(extensions@);
            let ghost next = walk_chain(buf@, payload_start as int, buf@[idx as int]);
            match ExtensionType::from_code(kind) {
                Some(t) => {
                    let data = slice_to_vec(slice_subrange(buf, extension_start, payload_start));
                    let extension = Extension { ty: t, data };
                    extensions.push(extension);
                    proof {
                        let e = (t, buf@.subrange(extension_start as int, payload_start as int));
                        assert(views_of(extensions@) =~= acc.push(e));
                        if let Ok((rest, fin)) = next {
                            assert(acc.push(e) + rest =~= acc + (seq![e] + rest));
                        }
                    }
                },
                None => {},
            }
            kind = buf[idx];
            idx = payload_start;
        }
        if kind != 0 {
            return Err(ParseError::InvalidPacketLength);
        }
        assert(views_of(extensions@) + seq![] =~= views_of(extensions@));
        let payload = slice_to_vec(slice_subrange(buf, idx, buf.len()));
        Ok(Packet { header, extensions, payload })
    }
}

} // verus!
