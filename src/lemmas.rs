use vstd::prelude::*;

use crate::error::ParseError;
use crate::extension::{
    chain_bytes, chain_bytes_from, code_at, extension_data_wf, record_bytes, walk_chain,
    ExtensionType, ExtensionView,
};
use crate::header::{
    lemma_header_bytes_of_decoded, lemma_header_round_trip, low_nibble, PacketHeader, HEADER_SIZE,
};
use crate::packet::{after, records_len_from, spec_decode, spec_encode, wire_header, PacketView};

verus! {

/// The extension data is well formed and its length fits the length byte.
pub open spec fn encodable(exts: Seq<ExtensionView>) -> bool {
    forall|i: int|
        0 <= i < exts.len() ==> extension_data_wf(#[trigger] exts[i].1) && exts[i].1.len() <= 255
}

/// What a chain walk reads is encodable, and the payload starts inside the
/// buffer.
proof fn lemma_walk_output(buf: Seq<u8>, idx: int, kind: u8)
    requires
        0 <= idx <= buf.len(),
    ensures
        walk_chain(buf, idx, kind) matches Ok((exts, fin)) ==> encodable(exts) && idx <= fin
            <= buf.len(),
    decreases buf.len() - idx,
{
    if idx < buf.len() && kind != 0 && buf.len() >= idx + 2 {
        let len = buf[idx + 1] as int;
        let end = idx + 2 + len;
        if !(len == 0 || len % 4 != 0 || end > buf.len()) {
            lemma_walk_output(buf, end, buf[idx]);
            if let Ok((rest, fin)) = walk_chain(buf, end, buf[idx]) {
                if let Some(t) = ExtensionType::spec_from_code(kind) {
                    let exts = seq![(t, buf.subrange(idx + 2, end))] + rest;
                    assert forall|i: int| 0 <= i < exts.len() implies extension_data_wf(
                        #[trigger] exts[i].1,
                    ) && exts[i].1.len() <= 255 by {
                        if i > 0 {
                            assert(exts[i] == rest[i - 1]);
                        }
                    }
                }
            }
        }
    }
}

/// Walking the wire bytes of extensions `i` onwards reads those extensions
/// back and ends right after them.
proof fn lemma_walk_encoded(buf: Seq<u8>, exts: Seq<ExtensionView>, i: int, idx: int)
    requires
        0 <= i <= exts.len(),
        0 <= idx,
        encodable(exts),
        idx + chain_bytes_from(exts, i).len() <= buf.len(),
        buf.subrange(idx, idx + chain_bytes_from(exts, i).len()) == chain_bytes_from(exts, i),
    ensures
        walk_chain(buf, idx, code_at(exts, i)) == Ok::<(Seq<ExtensionView>, int), ParseError>(
            (exts.subrange(i, exts.len() as int), idx + chain_bytes_from(exts, i).len()),
        ),
    decreases exts.len() - i,
{
    if i < exts.len() {
        let d = exts[i].1;
        let next = code_at(exts, i + 1);
        let rest = chain_bytes_from(exts, i + 1);
        let c = chain_bytes_from(exts, i);
        assert(c == record_bytes(next, d) + rest);
        let end = idx + 2 + d.len();
        assert(buf[idx] == c[0]);
        assert(buf[idx + 1] == c[1]);
        assert(c[1] == d.len() as u8);
        assert(buf[idx + 1] == d.len());
        assert(buf.subrange(end, end + rest.len()) =~= rest) by {
            assert forall|k: int| 0 <= k < rest.len() implies buf.subrange(end, end + rest.len())[k]
                == rest[k] by {
                assert(buf[end + k] == c[2 + d.len() + k]);
            }
        }
        assert(buf.subrange(idx + 2, end) =~= d) by {
            assert forall|k: int| 0 <= k < d.len() implies buf.subrange(idx + 2, end)[k] == d[k] by {
                assert(buf[idx + 2 + k] == c[2 + k]);
            }
        }
        lemma_walk_encoded(buf, exts, i + 1, end);
        assert(exts[i].0 == ExtensionType::SelectiveAck);
        assert(seq![exts[i]] + exts.subrange(i + 1, exts.len() as int) =~= exts.subrange(
            i,
            exts.len() as int,
        ));
    } else {
        assert(exts.subrange(i, exts.len() as int) =~= seq![]);
    }
}

/// The wire length of a packet is the length of its encoding.
pub proof fn lemma_len_of_bytes(p: PacketView)
    ensures
        spec_encode(p).len() == p.spec_len(),
{
    lemma_header_round_trip(wire_header(p));
    lemma_chain_len(p.extensions, 0);
}

proof fn lemma_chain_len(exts: Seq<ExtensionView>, i: int)
    requires
        0 <= i,
    ensures
        chain_bytes_from(exts, i).len() == records_len_from(exts, i),
    decreases exts.len() - i,
{
    if i < exts.len() {
        lemma_chain_len(exts, i + 1);
    }
}

/// Walking one well-formed record reads it, when its type is known, and goes
/// on from the record it names next.
proof fn lemma_walk_record(buf: Seq<u8>, idx: int, kind: u8, next: u8, d: Seq<u8>)
    requires
        0 <= idx,
        kind != 0,
        extension_data_wf(d),
        d.len() <= 255,
        idx + 2 + d.len() <= buf.len(),
        buf.subrange(idx, idx + 2 + d.len()) == record_bytes(next, d),
    ensures
        walk_chain(buf, idx, kind) == after(
            match ExtensionType::spec_from_code(kind) {
                Some(t) => seq![(t, d)],
                None => seq![],
            },
            walk_chain(buf, idx + 2 + d.len(), next),
        ),
{
    let r = record_bytes(next, d);
    assert(buf[idx] == r[0]);
    assert(buf[idx + 1] == r[1]);
    assert(buf[idx + 1] == d.len());
    assert(buf.subrange(idx + 2, idx + 2 + d.len()) =~= d) by {
        assert forall|k: int| 0 <= k < d.len() implies buf.subrange(idx + 2, idx + 2 + d.len())[k]
            == d[k] by {
            assert(buf[idx + 2 + k] == r[2 + k]);
        }
    }
    if let Ok((rest, fin)) = walk_chain(buf, idx + 2 + d.len(), next) {
        assert(seq![] + rest =~= rest);
    }
}

/// A record of an unknown type between two selective acknowledgments is
/// skipped, and the chain is read on past it.
pub proof fn lemma_unknown_extension_skipped(
    h: PacketHeader,
    unknown: u8,
    d1: Seq<u8>,
    d2: Seq<u8>,
    d3: Seq<u8>,
    payload: Seq<u8>,
)
    requires
        h.spec_version() == 1,
        h.extension == ExtensionType::SelectiveAck.spec_code(),
        unknown != 0,
        ExtensionType::spec_from_code(unknown) is None,
        extension_data_wf(d1) && d1.len() <= 255,
        extension_data_wf(d2) && d2.len() <= 255,
        extension_data_wf(d3) && d3.len() <= 255,
    ensures
        spec_decode(
            h.spec_bytes() + record_bytes(unknown, d1) + record_bytes(
                ExtensionType::SelectiveAck.spec_code(),
                d2,
            ) + record_bytes(0, d3) + payload,
        ) == Ok::<PacketView, ParseError>(
            PacketView {
                header: h,
                extensions: seq![(ExtensionType::SelectiveAck, d1), (ExtensionType::SelectiveAck, d3)],
                payload,
            },
        ),
{
    let hb = h.spec_bytes();
    let r1 = record_bytes(unknown, d1);
    let r2 = record_bytes(1, d2);
    let r3 = record_bytes(0, d3);
    let buf = hb + r1 + r2 + r3 + payload;
    lemma_header_round_trip(h);
    assert(PacketHeader::from_bytes(buf) == PacketHeader::from_bytes(hb)) by {
        assert forall|k: int| 0 <= k < HEADER_SIZE implies buf[k] == hb[k] by {}
    }
    let i1 = HEADER_SIZE + r1.len();
    let i2 = i1 + r2.len();
    let i3 = i2 + r3.len();
    assert(buf.subrange(HEADER_SIZE as int, i1) =~= r1);
    assert(buf.subrange(i1, i2) =~= r2);
    assert(buf.subrange(i2, i3) =~= r3);
    assert(buf.subrange(i3, buf.len() as int) =~= payload);
    lemma_walk_record(buf, HEADER_SIZE as int, 1, unknown, d1);
    lemma_walk_record(buf, i1, unknown, 1, d2);
    lemma_walk_record(buf, i2, 1, 0, d3);
    let e1 = (ExtensionType::SelectiveAck, d1);
    let e3 = (ExtensionType::SelectiveAck, d3);
    assert(walk_chain(buf, i3, 0) == Ok::<(Seq<ExtensionView>, int), ParseError>((seq![], i3)));
    assert(seq![e3] + seq![] =~= seq![e3]);
    assert(seq![] + seq![e3] =~= seq![e3]);
    assert(seq![e1] + seq![e3] =~= seq![e1, e3]);
}

/// A buffer shorter than the header is refused as too short.
pub proof fn lemma_short_buffer_rejected(buf: Seq<u8>)
    requires
        buf.len() < HEADER_SIZE,
    ensures
        spec_decode(buf) == Err::<PacketView, ParseError>(ParseError::InvalidPacketLength),
{
}

/// A header-sized buffer whose version nibble is not 1 is refused for its
/// version.
pub proof fn lemma_bad_version_rejected(buf: Seq<u8>)
    requires
        buf.len() >= HEADER_SIZE,
        low_nibble(buf[0]) != 1,
    ensures
        spec_decode(buf) == Err::<PacketView, ParseError>(ParseError::UnsupportedVersion),
{
}

/// A declared extension chain whose first record does not fit in the buffer
/// is refused: with no byte after the header, or with a length that runs
/// past the end, for the extension length; with a next-type byte and no
/// length byte, for the packet length.
pub proof fn lemma_truncated_chain_rejected(buf: Seq<u8>)
    requires
        buf.len() >= HEADER_SIZE,
        low_nibble(buf[0]) == 1,
        buf[1] != 0,
        buf.len() < HEADER_SIZE + 2 || HEADER_SIZE + 2 + buf[21] > buf.len(),
    ensures
        buf.len() == HEADER_SIZE ==> spec_decode(buf) == Err::<PacketView, ParseError>(
            ParseError::InvalidExtensionLength,
        ),
        buf.len() == HEADER_SIZE + 1 ==> spec_decode(buf) == Err::<PacketView, ParseError>(
            ParseError::InvalidPacketLength,
        ),
        buf.len() >= HEADER_SIZE + 2 ==> spec_decode(buf) == Err::<PacketView, ParseError>(
            ParseError::InvalidExtensionLength,
        ),
{
}

/// Decoding the bytes of a decoded packet gives the same packet, where the
/// header's extension field is 0 or names a known extension type.
pub proof fn lemma_round_trip(buf: Seq<u8>, p: PacketView)
    requires
        spec_decode(buf) == Ok::<PacketView, ParseError>(p),
        p.header.extension == 0 || ExtensionType::spec_from_code(p.header.extension) is Some,
    ensures
        spec_decode(spec_encode(p)) == Ok::<PacketView, ParseError>(p),
{
    let h = p.header;
    let exts = p.extensions;
    lemma_walk_output(buf, HEADER_SIZE as int, h.extension);
    assert(h.extension == code_at(exts, 0));
    assert(wire_header(p) == h);
    let hb = h.spec_bytes();
    let cb = chain_bytes(exts);
    let e = spec_encode(p);
    lemma_header_round_trip(h);
    assert(e == hb + cb + p.payload);
    assert(PacketHeader::from_bytes(e) == PacketHeader::from_bytes(hb)) by {
        assert forall|k: int| 0 <= k < HEADER_SIZE implies e[k] == hb[k] by {}
    }
    assert(e.subrange(HEADER_SIZE as int, HEADER_SIZE + cb.len()) =~= cb);
    lemma_walk_encoded(e, exts, 0, HEADER_SIZE as int);
    assert(exts.subrange(0, exts.len() as int) =~= exts);
    if h.extension != 0 {
        assert(cb.len() > 0);
    }
    assert(e.subrange(HEADER_SIZE + cb.len(), e.len() as int) =~= p.payload);
}

/// A packet read from a buffer that declares no extension encodes back to
/// that very buffer.
pub proof fn lemma_plain_packet_reencodes(buf: Seq<u8>, p: PacketView)
    requires
        spec_decode(buf) == Ok::<PacketView, ParseError>(p),
        buf[1] == 0,
    ensures
        spec_encode(p) == buf,
{
    lemma_header_bytes_of_decoded(buf);
    assert(p.extensions.len() == 0);
    assert(wire_header(p) == p.header);
    assert(chain_bytes(p.extensions) =~= seq![]);
    assert(spec_encode(p) =~= buf);
}

} // verus!
