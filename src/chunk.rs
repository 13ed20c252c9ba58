use vstd::prelude::*;
use vstd::slice::{slice_subrange, slice_to_vec};
use vstd::string::StringExecFns;
use vstd::utf8::{decode_utf8, valid_utf8};

use crate::bytes::{
    be_bytes, be_u32, lemma_be_bytes_of_u32, lemma_be_u32_of_bytes, push_be_u32, push_bytes,
    read_be_u32,
};
use crate::chunk_type::{valid_type_bytes, ChunkType};
use crate::error::PngError;
use crate::text::{
    ascii_text, decimal_digits, decimal_string, lossy_text_of, string_from_utf8, utf8_lossy,
};

verus! {

/// The CRC-32/ISO-HDLC checksum of some bytes.
pub uninterp spec fn crc32_of(bytes: Seq<u8>) -> u32;

/// Relies on `crc::Crc::<u32>::checksum` with the `CRC_32_ISO_HDLC`
/// parameters: the checksum depends on the bytes alone.
#[verifier::external_body]
fn crc32_iso_hdlc(bytes: &[u8]) -> (r: u32)
    ensures
        r == crc32_of(bytes@),
{
    crc::Crc::<u32>::new(&crc::CRC_32_ISO_HDLC).checksum(bytes)
}

/// What a chunk holds: its type's four bytes, its data and its checksum.
pub struct ChunkView {
    pub kind: Seq<u8>,
    pub data: Seq<u8>,
    pub crc: u32,
}

impl ChunkView {
    /// A well-formed chunk: a valid type, data whose length fits the
    /// 32-bit length field, and the checksum of type and data.
    pub open spec fn wf(self) -> bool {
        &&& valid_type_bytes(self.kind)
        &&& self.data.len() <= u32::MAX
        &&& self.crc == crc32_of(self.kind + self.data)
    }

    /// The number of bytes that the chunk takes up in a file.
    pub open spec fn size(self) -> int {
        12 + self.data.len() as int
    }
}

/// The chunk that a type and data make.
pub open spec fn chunk_of(kind: Seq<u8>, data: Seq<u8>) -> ChunkView {
    ChunkView { kind, data, crc: crc32_of(kind + data) }
}

/// The bytes of a chunk in a file: length, type, data and checksum.
#[verifier::opaque]
pub open spec fn chunk_bytes(c: ChunkView) -> Seq<u8> {
    be_bytes(c.data.len() as u32) + c.kind + c.data + be_bytes(c.crc)
}

/// What reading a chunk from the start of `b` gives.
#[verifier::opaque]
pub open spec fn chunk_parse_spec(b: Seq<u8>) -> Result<ChunkView, PngError> {
    if b.len() < 8 {
        Err(PngError::TruncatedChunk)
    } else if !valid_type_bytes(b.subrange(4, 8)) {
        Err(PngError::InvalidChunkType)
    } else {
        let len = be_u32(b.subrange(0, 4)) as int;
        if b.len() < 12 + len {
            Err(PngError::TruncatedChunk)
        } else {
            let c = chunk_of(b.subrange(4, 8), b.subrange(8, 8 + len));
            if be_u32(b.subrange(8 + len, 12 + len)) != c.crc {
                Err(PngError::CrcMismatch)
            } else {
                Ok(c)
            }
        }
    }
}

/// Reading the bytes of a well-formed chunk, whatever follows them, gives
/// the chunk back.
pub proof fn lemma_parse_chunk_bytes(c: ChunkView, rest: Seq<u8>)
    requires
        c.wf(),
    ensures
        chunk_parse_spec(chunk_bytes(c) + rest) == Ok::<ChunkView, PngError>(c),
        chunk_bytes(c).len() == c.size(),
{
    reveal(chunk_bytes);
    reveal(chunk_parse_spec);
    let b = chunk_bytes(c) + rest;
    let len = c.data.len() as int;
    lemma_be_u32_of_bytes(len as u32);
    lemma_be_u32_of_bytes(c.crc);
    assert(b.subrange(0, 4) =~= be_bytes(len as u32));
    assert(b.subrange(4, 8) =~= c.kind);
    assert(b.subrange(8, 8 + len) =~= c.data);
    assert(b.subrange(8 + len, 12 + len) =~= be_bytes(c.crc));
}

/// A chunk that was read from `b` is well formed, and writing it out gives
/// the bytes of `b` that it was read from.
pub proof fn lemma_chunk_bytes_of_parse(b: Seq<u8>)
    requires
        chunk_parse_spec(b) is Ok,
    ensures
        chunk_parse_spec(b)->Ok_0.wf(),
        chunk_parse_spec(b)->Ok_0.size() <= b.len(),
        chunk_bytes(chunk_parse_spec(b)->Ok_0) == b.subrange(0, chunk_parse_spec(b)->Ok_0.size()),
{
    reveal(chunk_bytes);
    reveal(chunk_parse_spec);
    let c = chunk_parse_spec(b)->Ok_0;
    let len = be_u32(b.subrange(0, 4)) as int;
    lemma_be_bytes_of_u32(b.subrange(0, 4));
    lemma_be_bytes_of_u32(b.subrange(8 + len, 12 + len));
    assert(c.data.len() == len);
    assert(chunk_bytes(c) =~= b.subrange(0, 12 + len));
}

/// Writing a chunk out and reading it back gives the same chunk.
pub proof fn lemma_chunk_round_trip(c: ChunkView)
    requires
        c.wf(),
    ensures
        chunk_parse_spec(chunk_bytes(c)) == Ok::<ChunkView, PngError>(c),
{
    lemma_parse_chunk_bytes(c, Seq::empty());
    assert(chunk_bytes(c) + Seq::empty() =~= chunk_bytes(c));
}

/// A chunk whose declared length runs past the end of the bytes is
/// rejected as truncated rather than read short.
pub proof fn lemma_truncated_payload_rejected(b: Seq<u8>)
    requires
        b.len() >= 8,
        valid_type_bytes(b.subrange(4, 8)),
        b.len() < 12 + be_u32(b.subrange(0, 4)) as int,
    ensures
        chunk_parse_spec(b) == Err::<ChunkView, PngError>(PngError::TruncatedChunk),
{
    reveal(chunk_parse_spec);
}

/// The checksum of a chunk is fixed by its type and data: two well-formed
/// chunks that agree on both are the same chunk.
pub proof fn lemma_crc_determined(c1: ChunkView, c2: ChunkView)
    requires
        c1.wf(),
        c2.wf(),
        c1.kind == c2.kind,
        c1.data == c2.data,
    ensures
        c1.crc == c2.crc,
        c1 == c2,
{
}

/// Bytes that agree with a well-formed chunk's bytes everywhere but in the
/// stored checksum, and differ there, are rejected as a checksum mismatch.
pub proof fn lemma_altered_crc_rejected(c: ChunkView, b: Seq<u8>)
    requires
        c.wf(),
        b.len() == chunk_bytes(c).len(),
        b.subrange(0, c.size() - 4) == chunk_bytes(c).subrange(0, c.size() - 4),
        b != chunk_bytes(c),
    ensures
        chunk_parse_spec(b) == Err::<ChunkView, PngError>(PngError::CrcMismatch),
{
    reveal(chunk_bytes);
    reveal(chunk_parse_spec);
    let good = chunk_bytes(c);
    let len = c.data.len() as int;
    let p = 8 + len;
    let head = good.subrange(0, p);
    assert(head =~= be_bytes(len as u32) + c.kind + c.data);
    assert(b.subrange(0, p) == head);
    assert(b.subrange(0, 4) =~= be_bytes(len as u32)) by {
        assert(b.subrange(0, 4) =~= head.subrange(0, 4));
    }
    lemma_be_u32_of_bytes(len as u32);
    assert(b.subrange(4, 8) =~= c.kind) by {
        assert(b.subrange(4, 8) =~= head.subrange(4, 8));
    }
    assert(b.subrange(8, p) =~= c.data) by {
        assert(b.subrange(8, p) =~= head.subrange(8, p));
    }
    let tail = b.subrange(p, p + 4);
    if be_u32(tail) == c.crc {
        lemma_be_bytes_of_u32(tail);
        assert(good =~= head + be_bytes(c.crc));
        assert(b =~= head + tail);
    }
}

/// One record of a PNG file: a type, data, and the checksum of both.
#[derive(Debug)]
pub struct Chunk {
    length: u32,
    kind: ChunkType,
    data: Vec<u8>,
    crc: u32,
}

impl View for Chunk {
    type V = ChunkView;

    closed spec fn view(&self) -> ChunkView {
        ChunkView { kind: self.kind@, data: self.data@, crc: self.crc }
    }
}

impl Chunk {
    #[verifier::type_invariant]
    spec fn inv(self) -> bool {
        &&& self@.wf()
        &&& self.length as int == self.data@.len()
    }

    /// Makes the chunk of a type and data, computing its checksum.
    pub fn new(chunk_type: ChunkType, data: Vec<u8>) -> (r: Chunk)
        requires
            data@.len() <= u32::MAX,
        ensures
            r@ == chunk_of(chunk_type@, data@),
            r@.wf(),
    {
        let kind_bytes = chunk_type.bytes();
        let mut covered: Vec<u8> = Vec::new();
        push_bytes(&mut covered, kind_bytes.as_slice());
        push_bytes(&mut covered, data.as_slice());
        let crc = crc32_iso_hdlc(covered.as_slice());
        Chunk { length: data.len() as u32, kind: chunk_type, data, crc }
    }

    /// Reads a chunk from the start of `bytes`; bytes after its end are
    /// left alone.
    pub fn parse(bytes: &[u8]) -> (r: Result<Chunk, PngError>)
        ensures
            r matches Ok(c) ==> chunk_parse_spec(bytes@) == Ok::<ChunkView, PngError>(c@),
            r matches Err(e) ==> chunk_parse_spec(bytes@) == Err::<ChunkView, PngError>(e),
    {
        reveal(chunk_parse_spec);
        if bytes.len() < 8 {
            return Err(PngError::TruncatedChunk);
        }
        let length = read_be_u32(bytes, 0);
        let kind = match ChunkType::parse([bytes[4], bytes[5], bytes[6], bytes[7]]) {
            Ok(t) => t,
            Err(e) => {
                assert(bytes@.subrange(4, 8) =~= seq![bytes@[4], bytes@[5], bytes@[6], bytes@[7]]);
                return Err(e);
            },
        };
        assert(kind@ =~= bytes@.subrange(4, 8));
        let len = length as usize;
        if bytes.len() - 8 < len || bytes.len() - 8 - len < 4 {
            return Err(PngError::TruncatedChunk);
        }
        let data = slice_to_vec(slice_subrange(bytes, 8, 8 + len));
        let stored = read_be_u32(bytes, 8 + len);
        let chunk = Chunk::new(kind, data);
        if stored != chunk.crc {
            return Err(PngError::CrcMismatch);
        }
        Ok(chunk)
    }

    /// The length of the data, as the file's length field holds it.
    pub fn length(&self) -> (r: u32)
        ensures
            r as int == self@.data.len(),
    {
        proof {
            use_type_invariant(self);
        }
        self.length
    }

    pub fn chunk_type(&self) -> (r: &ChunkType)
        ensures
            r@ == self@.kind,
    {
        &self.kind
    }

    pub fn data(&self) -> (r: &[u8])
        ensures
            r@ == self@.data,
    {
        self.data.as_slice()
    }

    /// The checksum, which always matches type and data.
    pub fn crc(&self) -> (r: u32)
        ensures
            r == self@.crc,
            self@.wf(),
    {
        proof {
            use_type_invariant(self);
        }
        self.crc
    }

    /// The data as text; fails unless it is valid UTF-8.
    pub fn data_as_string(&self) -> (r: Result<String, PngError>)
        ensures
            r matches Ok(s) ==> valid_utf8(self@.data) && s@ == decode_utf8(self@.data),
            r matches Err(e) ==> !valid_utf8(self@.data) && e == PngError::NotUtf8,
    {
        match string_from_utf8(slice_to_vec(self.data.as_slice())) {
            Some(s) => Ok(s),
            None => Err(PngError::NotUtf8),
        }
    }

    /// The data as text for display, with invalid sequences replaced.
    pub fn data_as_lossy_string(&self) -> (r: String)
        ensures
            r@ == lossy_text_of(self@.data),
            valid_utf8(self@.data) ==> r@ == decode_utf8(self@.data),
    {
        utf8_lossy(self.data.as_slice())
    }

    /// The bytes of the chunk as it stands in a file.
    pub fn as_bytes(&self) -> (r: Vec<u8>)
        ensures
            r@ == chunk_bytes(self@),
    {
        proof {
            use_type_invariant(self);
            reveal(chunk_bytes);
        }
        let mut out: Vec<u8> = Vec::new();
        push_be_u32(&mut out, self.length);
        let kind_bytes = self.kind.bytes();
        push_bytes(&mut out, kind_bytes.as_slice());
        push_bytes(&mut out, self.data.as_slice());
        push_be_u32(&mut out, self.crc);
        out
    }

    /// The chunk as one line of text: type, checksum and quoted data.
    pub fn to_string(&self) -> (r: String)
        ensures
            r@ == ascii_text(self@.kind) + " ("@ + ascii_text(decimal_digits(self@.crc as nat))
                + "): \""@ + lossy_text_of(self@.data) + "\""@,
            valid_utf8(self@.data) ==> r@ == ascii_text(self@.kind) + " ("@ + ascii_text(
                decimal_digits(self@.crc as nat),
            ) + "): \""@ + decode_utf8(self@.data) + "\""@,
    {
        let mut s = self.kind.to_string();
        s.append(" (");
        let digits = decimal_string(self.crc);
        s.append(digits.as_str());
        s.append("): \"");
        let text = self.data_as_lossy_string();
        s.append(text.as_str());
        s.append("\"");
        s
    }
}

impl<'a> TryFrom<&'a [u8]> for Chunk {
    type Error = PngError;

    fn try_from(value: &'a [u8]) -> (r: Result<Chunk, PngError>)
        ensures
            r matches Ok(c) ==> chunk_parse_spec(value@) == Ok::<ChunkView, PngError>(c@),
            r matches Err(e) ==> chunk_parse_spec(value@) == Err::<ChunkView, PngError>(e),
    {
        Chunk::parse(value)
    }
}

/// A parsed chunk owns a copy of its data, so no spec value of `Chunk`
/// stands for the result; `try_from` states its result over the view.
impl<'a> vstd::std_specs::convert::TryFromSpecImpl<&'a [u8]> for Chunk {
    open spec fn obeys_try_from_spec() -> bool {
        false
    }

    open spec fn try_from_spec(value: &'a [u8]) -> Result<Chunk, PngError> {
        arbitrary()
    }
}

impl Clone for Chunk {
    fn clone(&self) -> (r: Chunk)
        ensures
            r@ == self@,
    {
        proof {
            use_type_invariant(self);
        }
        Chunk {
            length: self.length,
            kind: self.kind,
            data: slice_to_vec(self.data.as_slice()),
            crc: self.crc,
        }
    }
}

} // verus!
