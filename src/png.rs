use vstd::prelude::*;
use vstd::slice::slice_subrange;

use crate::bytes::be_u32;
use crate::chunk::{
    chunk_bytes, chunk_parse_spec, lemma_chunk_bytes_of_parse, lemma_parse_chunk_bytes,
    lemma_truncated_payload_rejected, Chunk, ChunkView,
};
use crate::chunk_type::{valid_type_bytes, ChunkType};
use crate::error::PngError;

verus! {

/// The eight bytes that every PNG file starts with.
pub open spec fn png_signature() -> Seq<u8> {
    seq![137u8, 80u8, 78u8, 71u8, 13u8, 10u8, 26u8, 10u8]
}

/// The bytes of a run of chunks, one after another.
pub open spec fn chunks_bytes(cs: Seq<ChunkView>) -> Seq<u8>
    decreases cs.len(),
{
    if cs.len() == 0 {
        Seq::empty()
    } else {
        chunk_bytes(cs[0]) + chunks_bytes(cs.drop_first())
    }
}

/// The bytes of a whole file: the signature, then the chunks.
pub open spec fn png_bytes(cs: Seq<ChunkView>) -> Seq<u8> {
    png_signature() + chunks_bytes(cs)
}

/// What reading chunks until the end of `b` gives.
pub open spec fn parse_chunks_spec(b: Seq<u8>) -> Result<Seq<ChunkView>, PngError>
    decreases b.len(),
{
    if b.len() == 0 {
        Ok(Seq::empty())
    } else if b.len() < 8 {
        Err(PngError::TrailingBytes)
    } else {
        match chunk_parse_spec(b) {
            Err(e) => Err(e),
            Ok(c) => if c.size() <= b.len() {
                match parse_chunks_spec(b.subrange(c.size(), b.len() as int)) {
                    Err(e) => Err(e),
                    Ok(rest) => Ok(seq![c] + rest),
                }
            } else {
                Err(PngError::TruncatedChunk)
            },
        }
    }
}

/// What reading a whole file gives.
pub open spec fn png_parse_spec(b: Seq<u8>) -> Result<Seq<ChunkView>, PngError> {
    if b.len() < 8 || b.subrange(0, 8) != png_signature() {
        Err(PngError::BadSignature)
    } else {
        parse_chunks_spec(b.subrange(8, b.len() as int))
    }
}

/// The chunks already read, in front of what reading the rest gives.
pub open spec fn after(
    done: Seq<ChunkView>,
    rest: Result<Seq<ChunkView>, PngError>,
) -> Result<Seq<ChunkView>, PngError> {
    match rest {
        Ok(cs) => Ok(done + cs),
        Err(e) => Err(e),
    }
}

/// The chunks of a given type, in order.
pub open spec fn of_type(cs: Seq<ChunkView>, kind: Seq<u8>) -> Seq<ChunkView>
    decreases cs.len(),
{
    if cs.len() == 0 {
        cs
    } else if cs[0].kind == kind {
        seq![cs[0]] + of_type(cs.drop_first(), kind)
    } else {
        of_type(cs.drop_first(), kind)
    }
}

/// The chunks of any other type, in order.
pub open spec fn without_type(cs: Seq<ChunkView>, kind: Seq<u8>) -> Seq<ChunkView>
    decreases cs.len(),
{
    if cs.len() == 0 {
        cs
    } else if cs[0].kind == kind {
        without_type(cs.drop_first(), kind)
    } else {
        seq![cs[0]] + without_type(cs.drop_first(), kind)
    }
}

/// The position of the first chunk of a given type; the length of `cs`
/// where there is none.
pub open spec fn first_of_type(cs: Seq<ChunkView>, kind: Seq<u8>) -> int
    decreases cs.len(),
{
    if cs.len() == 0 {
        0
    } else if cs[0].kind == kind {
        0
    } else {
        1 + first_of_type(cs.drop_first(), kind)
    }
}

/// Whether any chunk has the given type.
pub open spec fn has_type(cs: Seq<ChunkView>, kind: Seq<u8>) -> bool {
    exists|i: int| 0 <= i < cs.len() && #[trigger] cs[i].kind == kind
}

/// `first_of_type` finds the first chunk of the type, and only misses when
/// there is none.
pub proof fn lemma_first_of_type(cs: Seq<ChunkView>, kind: Seq<u8>)
    ensures
        0 <= first_of_type(cs, kind) <= cs.len(),
        forall|j: int| 0 <= j < first_of_type(cs, kind) ==> #[trigger] cs[j].kind != kind,
        first_of_type(cs, kind) < cs.len() ==> cs[first_of_type(cs, kind)].kind == kind,
        first_of_type(cs, kind) < cs.len() <==> has_type(cs, kind),
    decreases cs.len(),
{
    if cs.len() > 0 && cs[0].kind != kind {
        let tail = cs.drop_first();
        lemma_first_of_type(tail, kind);
        assert forall|j: int| 0 <= j < first_of_type(cs, kind) implies #[trigger] cs[j].kind
            != kind by {
            if j > 0 {
                assert(cs[j] == tail[j - 1]);
            }
        }
        if has_type(cs, kind) {
            let i = choose|i: int| 0 <= i < cs.len() && #[trigger] cs[i].kind == kind;
            assert(tail[i - 1].kind == kind);
        }
        if has_type(tail, kind) {
            let i = choose|i: int| 0 <= i < tail.len() && #[trigger] tail[i].kind == kind;
            assert(cs[i + 1].kind == kind);
        }
    } else if cs.len() > 0 {
        assert(cs[0].kind == kind);
    }
}

/// Searching two runs of chunks one after the other finds what searching
/// each finds, in the same order.
pub proof fn lemma_of_type_append(a: Seq<ChunkView>, b: Seq<ChunkView>, kind: Seq<u8>)
    ensures
        of_type(a + b, kind) == of_type(a, kind) + of_type(b, kind),
    decreases a.len(),
{
    if a.len() == 0 {
        assert(a + b =~= b);
        assert(of_type(a, kind) + of_type(b, kind) =~= of_type(b, kind));
    } else {
        lemma_of_type_append(a.drop_first(), b, kind);
        assert((a + b).drop_first() =~= a.drop_first() + b);
        assert((a + b)[0] == a[0]);
        if a[0].kind == kind {
            assert(seq![a[0]] + (of_type(a.drop_first(), kind) + of_type(b, kind)) =~= (seq![a[0]]
                + of_type(a.drop_first(), kind)) + of_type(b, kind));
        }
    }
}

/// Where a run of chunks holds none of a type, the first chunk of that
/// type after it is found past its end.
pub proof fn lemma_first_of_type_append(a: Seq<ChunkView>, b: Seq<ChunkView>, kind: Seq<u8>)
    requires
        !has_type(a, kind),
    ensures
        first_of_type(a + b, kind) == a.len() + first_of_type(b, kind),
        of_type(a, kind) == Seq::<ChunkView>::empty(),
    decreases a.len(),
{
    if a.len() == 0 {
        assert(a + b =~= b);
    } else {
        let tail = a.drop_first();
        assert(a[0].kind != kind);
        assert(!has_type(tail, kind)) by {
            if has_type(tail, kind) {
                let i = choose|i: int| 0 <= i < tail.len() && #[trigger] tail[i].kind == kind;
                assert(a[i + 1].kind == kind);
            }
        }
        lemma_first_of_type_append(tail, b, kind);
        assert((a + b).drop_first() =~= tail + b);
        assert((a + b)[0] == a[0]);
    }
}

/// Two chunks of a type appended to a file that held none of it are found
/// in the order they were appended; removing the first chunk of that type
/// removes the first of them, then the second, and then none is left.
pub proof fn lemma_append_search_remove(cs: Seq<ChunkView>, first: ChunkView, second: ChunkView)
    requires
        first.kind == second.kind,
        !has_type(cs, first.kind),
    ensures
        ({
            let kind = first.kind;
            let both = cs.push(first).push(second);
            &&& of_type(both, kind) == seq![first, second]
            &&& first_of_type(both, kind) == cs.len()
            &&& both[first_of_type(both, kind)] == first
            &&& both.remove(first_of_type(both, kind)) == cs.push(second)
            &&& first_of_type(cs.push(second), kind) == cs.len()
            &&& cs.push(second).remove(first_of_type(cs.push(second), kind)) == cs
            &&& !has_type(cs, kind)
        }),
{
    let kind = first.kind;
    let both = cs.push(first).push(second);
    let pair = seq![first, second];
    assert(both =~= cs + pair);
    lemma_of_type_append(cs, pair, kind);
    lemma_first_of_type_append(cs, pair, kind);
    assert(pair.drop_first() =~= seq![second]);
    assert(seq![second].drop_first() =~= Seq::<ChunkView>::empty());
    assert(of_type(Seq::<ChunkView>::empty(), kind) == Seq::<ChunkView>::empty());
    assert(seq![second][0] == second);
    assert(of_type(seq![second], kind) == seq![second] + of_type(
        Seq::<ChunkView>::empty(),
        kind,
    ));
    assert(of_type(seq![second], kind) =~= seq![second]);
    assert(of_type(pair, kind) =~= pair);
    assert(Seq::<ChunkView>::empty() + pair =~= pair);
    assert(both.remove(cs.len() as int) =~= cs.push(second));
    let single = seq![second];
    assert(cs.push(second) =~= cs + single);
    lemma_first_of_type_append(cs, single, kind);
    assert(cs.push(second).remove(cs.len() as int) =~= cs);
}

/// Adding a chunk at the end adds its bytes at the end.
pub proof fn lemma_chunks_bytes_push(cs: Seq<ChunkView>, c: ChunkView)
    ensures
        chunks_bytes(cs.push(c)) == chunks_bytes(cs) + chunk_bytes(c),
    decreases cs.len(),
{
    if cs.len() == 0 {
        assert(cs.push(c).drop_first() =~= Seq::<ChunkView>::empty());
        assert(chunks_bytes(Seq::<ChunkView>::empty()) == Seq::<u8>::empty());
        assert(chunks_bytes(cs.push(c)) =~= chunk_bytes(c));
    } else {
        lemma_chunks_bytes_push(cs.drop_first(), c);
        assert(cs.push(c).drop_first() =~= cs.drop_first().push(c));
        assert(chunks_bytes(cs.push(c)) =~= chunks_bytes(cs) + chunk_bytes(c));
    }
}

/// Chunks read until the end of `b`, written out again, give `b`.
pub proof fn lemma_chunks_round_trip(b: Seq<u8>)
    requires
        parse_chunks_spec(b) is Ok,
    ensures
        chunks_bytes(parse_chunks_spec(b)->Ok_0) == b,
    decreases b.len(),
{
    if b.len() > 0 {
        let c = chunk_parse_spec(b)->Ok_0;
        lemma_chunk_bytes_of_parse(b);
        let rest = b.subrange(c.size(), b.len() as int);
        lemma_chunks_round_trip(rest);
        let cs = parse_chunks_spec(b)->Ok_0;
        assert(cs.drop_first() =~= parse_chunks_spec(rest)->Ok_0);
        assert(b =~= b.subrange(0, c.size()) + rest);
    } else {
        assert(b =~= Seq::<u8>::empty());
    }
}

/// Every chunk read from a run of bytes is well formed.
pub proof fn lemma_parsed_chunks_wf(b: Seq<u8>)
    requires
        parse_chunks_spec(b) is Ok,
    ensures
        forall|i: int|
            0 <= i < parse_chunks_spec(b)->Ok_0.len() ==> (#[trigger] parse_chunks_spec(
                b,
            )->Ok_0[i]).wf(),
    decreases b.len(),
{
    if b.len() > 0 {
        let c = chunk_parse_spec(b)->Ok_0;
        lemma_chunk_bytes_of_parse(b);
        let rest = b.subrange(c.size(), b.len() as int);
        lemma_parsed_chunks_wf(rest);
        let cs = parse_chunks_spec(b)->Ok_0;
        assert forall|i: int| 0 <= i < cs.len() implies (#[trigger] cs[i]).wf() by {
            if i > 0 {
                assert(cs[i] == parse_chunks_spec(rest)->Ok_0[i - 1]);
            }
        }
    }
}

/// Every chunk read from a file is well formed.
pub proof fn lemma_png_chunks_wf(b: Seq<u8>)
    requires
        png_parse_spec(b) is Ok,
    ensures
        forall|i: int|
            0 <= i < png_parse_spec(b)->Ok_0.len() ==> (#[trigger] png_parse_spec(b)->Ok_0[i]).wf(),
{
    lemma_parsed_chunks_wf(b.subrange(8, b.len() as int));
}

/// Every file that reads successfully is written back byte for byte.
pub proof fn lemma_png_round_trip(b: Seq<u8>)
    requires
        png_parse_spec(b) is Ok,
    ensures
        png_bytes(png_parse_spec(b)->Ok_0) == b,
{
    lemma_chunks_round_trip(b.subrange(8, b.len() as int));
    assert(b =~= b.subrange(0, 8) + b.subrange(8, b.len() as int));
}

/// Well-formed chunks, written out, read back as the same chunks.
pub proof fn lemma_chunks_parse_bytes(cs: Seq<ChunkView>)
    requires
        forall|i: int| 0 <= i < cs.len() ==> (#[trigger] cs[i]).wf(),
    ensures
        parse_chunks_spec(chunks_bytes(cs)) == Ok::<Seq<ChunkView>, PngError>(cs),
    decreases cs.len(),
{
    if cs.len() == 0 {
        assert(cs =~= Seq::<ChunkView>::empty());
    } else {
        let c = cs[0];
        let tail = cs.drop_first();
        assert forall|i: int| 0 <= i < tail.len() implies (#[trigger] tail[i]).wf() by {
            assert(tail[i] == cs[i + 1]);
        }
        lemma_chunks_parse_bytes(tail);
        let b = chunks_bytes(cs);
        lemma_parse_chunk_bytes(c, chunks_bytes(tail));
        assert(b.subrange(c.size(), b.len() as int) =~= chunks_bytes(tail));
        assert(seq![c] + tail =~= cs);
    }
}

/// A file made of well-formed chunks, written out, reads back as the same
/// chunks.
pub proof fn lemma_png_parse_bytes(cs: Seq<ChunkView>)
    requires
        forall|i: int| 0 <= i < cs.len() ==> (#[trigger] cs[i]).wf(),
    ensures
        png_parse_spec(png_bytes(cs)) == Ok::<Seq<ChunkView>, PngError>(cs),
{
    let b = png_bytes(cs);
    lemma_chunks_parse_bytes(cs);
    assert(b.subrange(0, 8) =~= png_signature());
    assert(b.subrange(8, b.len() as int) =~= chunks_bytes(cs));
}

/// A file cut off inside its first chunk's data or checksum, after a
/// complete chunk header, is rejected as truncated.
pub proof fn lemma_truncated_file_rejected(b: Seq<u8>)
    requires
        b.len() >= 16,
        b.subrange(0, 8) == png_signature(),
        valid_type_bytes(b.subrange(12, 16)),
        b.len() < 20 + be_u32(b.subrange(8, 12)) as int,
    ensures
        png_parse_spec(b) == Err::<Seq<ChunkView>, PngError>(PngError::TruncatedChunk),
{
    let rest = b.subrange(8, b.len() as int);
    assert(rest.subrange(4, 8) =~= b.subrange(12, 16));
    assert(rest.subrange(0, 4) =~= b.subrange(8, 12));
    lemma_truncated_payload_rejected(rest);
}

/// A PNG file: the signature, which is implied, and its chunks in order.
pub struct Png {
    chunks: Vec<Chunk>,
}

impl View for Png {
    type V = Seq<ChunkView>;

    closed spec fn view(&self) -> Seq<ChunkView> {
        self.chunks@.map_values(|c: Chunk| c@)
    }
}

impl Png {
    /// The PNG signature.
    pub fn standard_header() -> (r: Vec<u8>)
        ensures
            r@ == png_signature(),
    {
        let r: Vec<u8> = vec![137u8, 80u8, 78u8, 71u8, 13u8, 10u8, 26u8, 10u8];
        assert(r@ =~= png_signature());
        r
    }

    /// A file that holds the given chunks.
    pub fn from_chunks(chunks: Vec<Chunk>) -> (r: Png)
        ensures
            r@ == chunks@.map_values(|c: Chunk| c@),
    {
        Png { chunks }
    }

    /// Reads a whole file: the signature, then chunks until no bytes are left.
    pub fn parse(bytes: &[u8]) -> (r: Result<Png, PngError>)
        ensures
            r matches Ok(p) ==> png_parse_spec(bytes@) == Ok::<Seq<ChunkView>, PngError>(p@),
            r matches Err(e) ==> png_parse_spec(bytes@) == Err::<Seq<ChunkView>, PngError>(e),
    {
        if bytes.len() < 8 {
            return Err(PngError::BadSignature);
        }
        let header = Png::standard_header();
        let mut i: usize = 0;
        while i < 8
            invariant
                0 <= i <= 8,
                bytes@.len() >= 8,
                header@ == png_signature(),
                forall|j: int| 0 <= j < i ==> #[trigger] bytes@[j] == header@[j],
            decreases 8 - i,
        {
            if bytes[i] != header[i] {
                assert(bytes@.subrange(0, 8)[i as int] != png_signature()[i as int]);
                return Err(PngError::BadSignature);
            }
            i = i + 1;
        }
        assert(bytes@.subrange(0, 8) =~= png_signature());
        let mut chunks: Vec<Chunk> = Vec::new();
        let mut pos: usize = 8;
        assert(chunks@.map_values(|c: Chunk| c@) + Seq::empty() =~= Seq::<ChunkView>::empty());
        while pos < bytes.len()
            invariant
                8 <= pos <= bytes@.len(),
                bytes@.subrange(0, 8) == png_signature(),
                png_parse_spec(bytes@) == after(
                    chunks@.map_values(|c: Chunk| c@),
                    parse_chunks_spec(bytes@.subrange(pos as int, bytes@.len() as int)),
                ),
            decreases bytes@.len() - pos,
        {
            let rest = slice_subrange(bytes, pos, bytes.len());
            let ghost done = chunks@.map_values(|c: Chunk| c@);
            if rest.len() < 8 {
                return Err(PngError::TrailingBytes);
            }
            match Chunk::parse(rest) {
                Err(e) => {
                    return Err(e);
                },
                Ok(c) => {
                    proof {
                        lemma_chunk_bytes_of_parse(rest@);
                    }
                    let size = 12 + c.length() as usize;
                    let ghost next = rest@.subrange(size as int, rest@.len() as int);
                    assert(next =~= bytes@.subrange(pos + size, bytes@.len() as int));
                    chunks.push(c);
                    pos = pos + size;
                    assert(chunks@.map_values(|c: Chunk| c@) =~= done.push(c@));
                    proof {
                        match parse_chunks_spec(next) {
                            Ok(cs) => {
                                assert(done + (seq![c@] + cs) =~= done.push(c@) + cs);
                            },
                            Err(_) => {},
                        }
                    }
                },
            }
        }
        assert(bytes@.subrange(pos as int, bytes@.len() as int) =~= Seq::<u8>::empty());
        assert(chunks@.map_values(|c: Chunk| c@) + Seq::empty() =~= chunks@.map_values(
            |c: Chunk| c@,
        ));
        Ok(Png { chunks })
    }

    /// The whole file as bytes: the signature, then each chunk in order.
    pub fn as_bytes(&self) -> (r: Vec<u8>)
        ensures
            r@ == png_bytes(self@),
    {
        let mut out = Png::standard_header();
        let mut i: usize = 0;
        while i < self.chunks.len()
            invariant
                0 <= i <= self.chunks@.len(),
                out@ == png_signature() + chunks_bytes(self@.take(i as int)),
            decreases self.chunks@.len() - i,
        {
            let bytes = self.chunks[i].as_bytes();
            proof {
                lemma_chunks_bytes_push(self@.take(i as int), self@[i as int]);
                assert(self@.take(i + 1) =~= self@.take(i as int).push(self@[i as int]));
            }
            crate::bytes::push_bytes(&mut out, bytes.as_slice());
            i = i + 1;
        }
        assert(self@.take(i as int) =~= self@);
        out
    }

    /// The chunks in file order.
    pub fn chunks(&self) -> (r: &[Chunk])
        ensures
            r@.map_values(|c: Chunk| c@) == self@,
    {
        self.chunks.as_slice()
    }

    /// Adds a chunk at the end of the file.
    pub fn append_chunk(&mut self, chunk: Chunk)
        ensures
            final(self)@ == old(self)@.push(chunk@),
    {
        self.chunks.push(chunk);
        assert(final(self)@ =~= old(self)@.push(chunk@));
    }

    /// The chunks of the given type, in file order.
    pub fn chunks_by_type(&self, chunk_type: &ChunkType) -> (r: Vec<&Chunk>)
        ensures
            r@.map_values(|c: &Chunk| c@) == of_type(self@, chunk_type@),
    {
        let ghost kind = chunk_type@;
        let mut found: Vec<&Chunk> = Vec::new();
        let mut i: usize = 0;
        assert(self@.subrange(0, self@.len() as int) =~= self@);
        assert(found@.map_values(|c: &Chunk| c@) =~= Seq::<ChunkView>::empty());
        assert(Seq::<ChunkView>::empty() + of_type(self@, kind) =~= of_type(self@, kind));
        while i < self.chunks.len()
            invariant
                0 <= i <= self.chunks@.len(),
                kind == chunk_type@,
                of_type(self@, kind) == found@.map_values(|c: &Chunk| c@) + of_type(
                    self@.subrange(i as int, self@.len() as int),
                    kind,
                ),
            decreases self.chunks@.len() - i,
        {
            let ghost rest = self@.subrange(i as int, self@.len() as int);
            let ghost before = found@.map_values(|c: &Chunk| c@);
            assert(rest.drop_first() =~= self@.subrange(i + 1, self@.len() as int));
            let c = &self.chunks[i];
            assert(rest[0] == c@);
            if c.chunk_type().same_as(chunk_type) {
                found.push(c);
                assert(found@.map_values(|c: &Chunk| c@) =~= before.push(c@));
                assert(before + (seq![c@] + of_type(rest.drop_first(), kind)) =~= before.push(c@)
                    + of_type(rest.drop_first(), kind));
            }
            i = i + 1;
        }
        assert(self@.subrange(i as int, self@.len() as int) =~= Seq::<ChunkView>::empty());
        assert(found@.map_values(|c: &Chunk| c@) + Seq::<ChunkView>::empty() =~= found@.map_values(
            |c: &Chunk| c@,
        ));
        found
    }

    /// The position of the first chunk of the given type, if there is one.
    pub fn position_of_type(&self, chunk_type: &ChunkType) -> (r: Option<usize>)
        ensures
            r matches Some(i) ==> i == first_of_type(self@, chunk_type@) && i < self@.len(),
            r is None ==> !has_type(self@, chunk_type@) && first_of_type(self@, chunk_type@)
                == self@.len(),
    {
        let ghost kind = chunk_type@;
        proof {
            lemma_first_of_type(self@, kind);
        }
        let mut i: usize = 0;
        while i < self.chunks.len()
            invariant
                0 <= i <= self.chunks@.len(),
                kind == chunk_type@,
                forall|j: int| 0 <= j < i ==> #[trigger] self@[j].kind != kind,
            decreases self.chunks@.len() - i,
        {
            if self.chunks[i].chunk_type().same_as(chunk_type) {
                proof {
                    lemma_first_of_type(self@, kind);
                    let f = first_of_type(self@, kind);
                    assert(self@[i as int].kind == kind);
                    if f < i {
                        assert(self@[f].kind != kind);
                    }
                }
                return Some(i);
            }
            i = i + 1;
        }
        proof {
            lemma_first_of_type(self@, kind);
            if has_type(self@, kind) {
                let j = choose|j: int| 0 <= j < self@.len() && #[trigger] self@[j].kind == kind;
                assert(self@[j].kind != kind);
            }
        }
        None
    }

    /// Removes the first chunk of the given type and returns it; fails when
    /// the file holds none.
    pub fn remove_chunk(&mut self, chunk_type: &ChunkType) -> (r: Result<Chunk, PngError>)
        ensures
            r matches Ok(c) ==> {
                let i = first_of_type(old(self)@, chunk_type@);
                &&& has_type(old(self)@, chunk_type@)
                &&& 0 <= i < old(self)@.len()
                &&& c@ == old(self)@[i]
                &&& c@.kind == chunk_type@
                &&& final(self)@ == old(self)@.remove(i)
            },
            r matches Err(e) ==> {
                &&& !has_type(old(self)@, chunk_type@)
                &&& e == PngError::ChunkNotFound
                &&& final(self)@ == old(self)@
            },
    {
        proof {
            lemma_first_of_type(self@, chunk_type@);
        }
        match self.position_of_type(chunk_type) {
            Some(i) => {
                let ghost start = self@;
                let c = self.chunks.remove(i);
                assert(self@ =~= start.remove(i as int));
                Ok(c)
            },
            None => Err(PngError::ChunkNotFound),
        }
    }

    /// Removes every chunk of the given type and says how many there were.
    pub fn remove_all_chunks(&mut self, chunk_type: &ChunkType) -> (r: usize)
        ensures
            final(self)@ == without_type(old(self)@, chunk_type@),
            r == of_type(old(self)@, chunk_type@).len(),
            r == old(self)@.len() - final(self)@.len(),
    {
        let ghost kind = chunk_type@;
        let ghost start = self@;
        let mut removed: usize = 0;
        let mut i: usize = 0;
        assert(start.len() == self.chunks.len());
        assert(start.subrange(0, start.len() as int) =~= start);
        assert(self@.subrange(0, 0) + without_type(start, kind) =~= without_type(start, kind));
        while i < self.chunks.len()
            invariant
                0 <= i <= self.chunks@.len(),
                kind == chunk_type@,
                start.len() <= usize::MAX,
                removed + self@.len() == start.len(),
                without_type(start, kind) == self@.subrange(0, i as int) + without_type(
                    self@.subrange(i as int, self@.len() as int),
                    kind,
                ),
                of_type(start, kind).len() == removed + of_type(
                    self@.subrange(i as int, self@.len() as int),
                    kind,
                ).len(),
            decreases self.chunks@.len() - i,
        {
            let ghost before = self@;
            let ghost rest = before.subrange(i as int, before.len() as int);
            assert(rest.drop_first() =~= before.subrange(i + 1, before.len() as int));
            assert(rest[0] == before[i as int]);
            if self.chunks[i].chunk_type().same_as(chunk_type) {
                self.chunks.remove(i);
                removed = removed + 1;
                assert(self@ =~= before.remove(i as int));
                assert(self@.subrange(0, i as int) =~= before.subrange(0, i as int));
                assert(self@.subrange(i as int, self@.len() as int) =~= rest.drop_first());
            } else {
                i = i + 1;
                assert(self@.subrange(0, i as int) =~= before.subrange(0, i - 1).push(before[i - 1]));
                assert(before.subrange(0, i - 1) + (seq![before[i - 1]] + without_type(
                    rest.drop_first(),
                    kind,
                )) =~= self@.subrange(0, i as int) + without_type(rest.drop_first(), kind));
            }
        }
        assert(self@.subrange(i as int, self@.len() as int) =~= Seq::<ChunkView>::empty());
        assert(self@.subrange(0, i as int) =~= self@);
        assert(self@ + Seq::<ChunkView>::empty() =~= self@);
        removed
    }
}

} // verus!
