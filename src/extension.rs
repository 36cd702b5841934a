use vstd::prelude::*;

use crate::error::ParseError;

verus! {

/// The kind of an extension. Only selective acknowledgment is known; other
/// type ids are skipped when a chain is read.
#[derive(Debug, Clone, Copy, PartialEq, Eq, Structural)]
pub enum ExtensionType {
    SelectiveAck,
}

impl ExtensionType {
    /// The wire code of the extension type.
    pub open spec fn spec_code(self) -> u8 {
        match self {
            ExtensionType::SelectiveAck => 1,
        }
    }

    /// The known extension type with the given wire code, if any.
    pub open spec fn spec_from_code(c: u8) -> Option<ExtensionType> {
        if c == 1 {
            Some(ExtensionType::SelectiveAck)
        } else {
            None
        }
    }

    pub fn code(self) -> (r: u8)
        ensures
            r == self.spec_code(),
    {
        match self {
            ExtensionType::SelectiveAck => 1,
        }
    }

    pub fn from_code(c: u8) -> (r: Option<ExtensionType>)
        ensures
            r == Self::spec_from_code(c),
    {
        if c == 1 {
            Some(ExtensionType::SelectiveAck)
        } else {
            None
        }
    }
}

/// What an extension is: its type and its data.
pub type ExtensionView = (ExtensionType, Seq<u8>);

/// One extension of a packet: its type and its raw data.
#[derive(Debug, Clone)]
pub struct Extension {
    pub ty: ExtensionType,
    pub data: Vec<u8>,
}

impl View for Extension {
    type V = ExtensionView;

    open spec fn view(&self) -> ExtensionView {
        (self.ty, self.data@)
    }
}

/// The data of an extension is at least 4 bytes long and a multiple of 4.
pub open spec fn extension_data_wf(data: Seq<u8>) -> bool {
    4 <= data.len() && data.len() % 4 == 0
}

impl Extension {
    pub open spec fn wf(&self) -> bool {
        extension_data_wf(self.data@)
    }

    /// Length of the extension's length byte and data.
    pub fn len(&self) -> (r: usize)
        requires
            self.data@.len() < usize::MAX,
        ensures
            r == 1 + self.data@.len(),
    {
        1 + self.data.len()
    }

    pub fn get_type(&self) -> (r: ExtensionType)
        ensures
            r == self.ty,
    {
        self.ty
    }

    /// The extension's length byte followed by its data.
    pub fn to_bytes(&self) -> (r: Vec<u8>)
        ensures
            r@ == seq![self.data@.len() as u8] + self.data@,
    {
        let mut out: Vec<u8> = Vec::new();
        #[verifier::truncate]
        let n = self.data.len() as u8;
        out.push(n);
        append_bytes(&mut out, self.data.as_slice());
        out
    }
}

/// Append all of `src` to `buf`.
pub(crate) fn append_bytes(buf: &mut Vec<u8>, src: &[u8])
    ensures
        final(buf)@ == old(buf)@ + src@,
{
    let mut i: usize = 0;
    while i < src.len()
        invariant
            i <= src@.len(),
            buf@ == old(buf)@ + src@.subrange(0, i as int),
        decreases src@.len() - i,
    {
        buf.push(src[i]);
        i = i + 1;
        assert(buf@ =~= old(buf)@ + src@.subrange(0, i as int));
    }
    assert(src@.subrange(0, i as int) =~= src@);
}

/// The models of a sequence of extensions.
pub open spec fn views_of(v: Seq<Extension>) -> Seq<ExtensionView> {
    v.map_values(|e: Extension| e@)
}

/// The type code of extension `i`, or 0 past the last one: what the record
/// before it names as the next type.
pub open spec fn code_at(exts: Seq<ExtensionView>, i: int) -> u8 {
    if 0 <= i < exts.len() {
        exts[i].0.spec_code()
    } else {
        0
    }
}

/// One record of the chain on the wire: the next record's type, the length,
/// the data.
pub open spec fn record_bytes(next: u8, data: Seq<u8>) -> Seq<u8> {
    seq![next, data.len() as u8] + data
}

/// The wire bytes of the records of extensions `i` onwards.
pub open spec fn chain_bytes_from(exts: Seq<ExtensionView>, i: int) -> Seq<u8>
    decreases exts.len() - i,
{
    if 0 <= i < exts.len() {
        record_bytes(code_at(exts, i + 1), exts[i].1) + chain_bytes_from(exts, i + 1)
    } else {
        seq![]
    }
}

/// The wire bytes of the whole extension chain.
pub open spec fn chain_bytes(exts: Seq<ExtensionView>) -> Seq<u8> {
    chain_bytes_from(exts, 0)
}

/// Reading the chain of `buf` from offset `idx`, where `kind` is the type of
/// the record found there (0: no more records). Gives the known extensions
/// read, in wire order, and the offset where the payload starts.
pub open spec fn walk_chain(buf: Seq<u8>, idx: int, kind: u8) -> Result<
    (Seq<ExtensionView>, int),
    ParseError,
>
    decreases buf.len() - idx,
{
    if idx < buf.len() && kind != 0 {
        if buf.len() < idx + 2 {
            Err(ParseError::InvalidPacketLength)
        } else {
            let len = buf[idx + 1] as int;
            let end = idx + 2 + len;
            if len == 0 || len % 4 != 0 || end > buf.len() {
                Err(ParseError::InvalidExtensionLength)
            } else {
                match walk_chain(buf, end, buf[idx]) {
                    Ok((rest, fin)) => Ok(
                        (
                            match ExtensionType::spec_from_code(kind) {
                                Some(t) => seq![(t, buf.subrange(idx + 2, end))] + rest,
                                None => rest,
                            },
                            fin,
                        ),
                    ),
                    Err(e) => Err(e),
                }
            }
        }
    } else if kind != 0 {
        Err(ParseError::InvalidPacketLength)
    } else {
        Ok((seq![], idx))
    }
}

} // verus!
