use vstd::prelude::*;
use vstd::slice::slice_to_vec;
use vstd::string::StringSliceAdditionalSpecFns;

use crate::chunk::{chunk_of, Chunk, ChunkView};
use crate::chunk_type::ChunkType;
use crate::error::PngError;
use crate::chunk_type::valid_type_bytes;
use crate::png::{
    first_of_type, has_type, lemma_of_type_append, lemma_png_chunks_wf, lemma_png_parse_bytes,
    of_type, png_bytes, png_parse_spec, without_type, Png,
};
use crate::text::lossy_text_of;
use vstd::utf8::{decode_utf8, valid_utf8};

verus! {

/// The chunks that are left after removing the first chunk of a type, or
/// all of them; `ChunkNotFound` where there is none.
pub open spec fn removal_spec(cs: Seq<ChunkView>, kind: Seq<u8>, all: bool) -> Result<
    Seq<ChunkView>,
    PngError,
> {
    if !has_type(cs, kind) {
        Err(PngError::ChunkNotFound)
    } else if all {
        Ok(without_type(cs, kind))
    } else {
        Ok(cs.remove(first_of_type(cs, kind)))
    }
}

/// Hides a message in a file: appends a chunk of the given type that holds
/// the message, and returns the new file.
pub fn encode(file: &[u8], message: &str, chunk_type: ChunkType) -> (r: Result<Vec<u8>, PngError>)
    requires
        message.spec_bytes().len() <= u32::MAX,
    ensures
        r matches Ok(v) ==> png_parse_spec(file@) is Ok && v@ == png_bytes(
            png_parse_spec(file@)->Ok_0.push(chunk_of(chunk_type@, message.spec_bytes())),
        ),
        r matches Err(e) ==> png_parse_spec(file@) == Err::<Seq<ChunkView>, PngError>(e),
{
    let mut png = match Png::parse(file) {
        Ok(p) => p,
        Err(e) => return Err(e),
    };
    let data = slice_to_vec(message.as_bytes());
    png.append_chunk(Chunk::new(chunk_type, data));
    Ok(png.as_bytes())
}

/// The messages held in the chunks of the given type, in file order, as
/// display text.
pub fn decode(file: &[u8], chunk_type: ChunkType) -> (r: Result<Vec<String>, PngError>)
    ensures
        r matches Ok(v) ==> {
            let found = of_type(png_parse_spec(file@)->Ok_0, chunk_type@);
            &&& png_parse_spec(file@) is Ok
            &&& v@.len() == found.len()
            &&& forall|i: int| 0 <= i < v@.len() ==> (#[trigger] v@[i])@ == lossy_text_of(found[i].data)
            &&& forall|i: int|
                0 <= i < v@.len() && valid_utf8(found[i].data) ==> (#[trigger] v@[i])@
                    == decode_utf8(found[i].data)
        },
        r matches Err(e) ==> png_parse_spec(file@) == Err::<Seq<ChunkView>, PngError>(e),
{
    let png = match Png::parse(file) {
        Ok(p) => p,
        Err(e) => return Err(e),
    };
    let found = png.chunks_by_type(&chunk_type);
    let ghost views = found@.map_values(|c: &Chunk| c@);
    let mut texts: Vec<String> = Vec::new();
    let mut i: usize = 0;
    while i < found.len()
        invariant
            0 <= i <= found@.len(),
            views == found@.map_values(|c: &Chunk| c@),
            texts@.len() == i,
            forall|j: int| 0 <= j < i ==> (#[trigger] texts@[j])@ == lossy_text_of(views[j].data),
            forall|j: int|
                0 <= j < i && valid_utf8(views[j].data) ==> (#[trigger] texts@[j])@ == decode_utf8(
                    views[j].data,
                ),
        decreases found@.len() - i,
    {
        texts.push(found[i].data_as_lossy_string());
        i = i + 1;
    }
    Ok(texts)
}

/// Removes the first chunk of the given type, or every one where `all` is
/// set, and returns the new file; fails where there is none.
pub fn remove(file: &[u8], chunk_type: ChunkType, all: bool) -> (r: Result<Vec<u8>, PngError>)
    ensures
        r matches Ok(v) ==> png_parse_spec(file@) is Ok && removal_spec(
            png_parse_spec(file@)->Ok_0,
            chunk_type@,
            all,
        ) is Ok && v@ == png_bytes(
            removal_spec(png_parse_spec(file@)->Ok_0, chunk_type@, all)->Ok_0,
        ),
        r matches Err(e) ==> match png_parse_spec(file@) {
            Ok(cs) => removal_spec(cs, chunk_type@, all) == Err::<Seq<ChunkView>, PngError>(e),
            Err(pe) => pe == e,
        },
{
    let mut png = match Png::parse(file) {
        Ok(p) => p,
        Err(e) => return Err(e),
    };
    match png.remove_chunk(&chunk_type) {
        Ok(_) => {},
        Err(e) => return Err(e),
    }
    if all {
        png.remove_all_chunks(&chunk_type);
        proof {
            lemma_without_after_first(png_parse_spec(file@)->Ok_0, chunk_type@);
        }
    }
    Ok(png.as_bytes())
}

/// A message hidden in a file that reads successfully is found again: the
/// new file reads back as the old chunks plus the message's chunk, and
/// searching it for the type finds the old matches followed by the message.
pub proof fn lemma_encode_then_decode(file: Seq<u8>, kind: Seq<u8>, message: Seq<u8>)
    requires
        png_parse_spec(file) is Ok,
        valid_type_bytes(kind),
        message.len() <= u32::MAX,
    ensures
        ({
            let cs = png_parse_spec(file)->Ok_0;
            let grown = cs.push(chunk_of(kind, message));
            &&& png_parse_spec(png_bytes(grown)) == Ok::<Seq<ChunkView>, PngError>(grown)
            &&& of_type(grown, kind) == of_type(cs, kind).push(chunk_of(kind, message))
        }),
{
    let cs = png_parse_spec(file)->Ok_0;
    let c = chunk_of(kind, message);
    let grown = cs.push(c);
    lemma_png_chunks_wf(file);
    assert forall|i: int| 0 <= i < grown.len() implies (#[trigger] grown[i]).wf() by {
        if i < cs.len() {
            assert(grown[i] == cs[i]);
        }
    }
    lemma_png_parse_bytes(grown);
    assert(grown =~= cs + seq![c]);
    lemma_of_type_append(cs, seq![c], kind);
    assert(seq![c].drop_first() =~= Seq::<ChunkView>::empty());
    assert(of_type(Seq::<ChunkView>::empty(), kind) == Seq::<ChunkView>::empty());
    assert(seq![c][0] == c);
    assert(of_type(seq![c], kind) == seq![c] + of_type(Seq::<ChunkView>::empty(), kind));
    assert(of_type(seq![c], kind) =~= seq![c]);
    assert(of_type(cs, kind) + seq![c] =~= of_type(cs, kind).push(c));
}

/// Removing the first chunk of a type, then all that are left of it, leaves
/// the same chunks as removing all of them at once.
pub proof fn lemma_without_after_first(cs: Seq<ChunkView>, kind: Seq<u8>)
    requires
        has_type(cs, kind),
    ensures
        without_type(cs.remove(first_of_type(cs, kind)), kind) == without_type(cs, kind),
    decreases cs.len(),
{
    crate::png::lemma_first_of_type(cs, kind);
    if cs[0].kind == kind {
        assert(cs.remove(0) =~= cs.drop_first());
    } else {
        let tail = cs.drop_first();
        let i = first_of_type(cs, kind);
        assert(has_type(tail, kind)) by {
            assert(tail[i - 1].kind == kind);
        }
        lemma_without_after_first(tail, kind);
        assert(first_of_type(tail, kind) == i - 1);
        let removed = cs.remove(i);
        assert(removed[0] == cs[0]);
        assert(removed.drop_first() =~= tail.remove(i - 1));
    }
}

/// Each chunk of a file: its type, its checksum and its data as display text.
pub fn list_chunks(file: &[u8]) -> (r: Result<Vec<(ChunkType, u32, String)>, PngError>)
    ensures
        r matches Ok(v) ==> {
            let cs = png_parse_spec(file@)->Ok_0;
            &&& png_parse_spec(file@) is Ok
            &&& v@.len() == cs.len()
            &&& forall|i: int|
                0 <= i < v@.len() ==> {
                    &&& (#[trigger] v@[i]).0@ == cs[i].kind
                    &&& v@[i].1 == cs[i].crc
                    &&& v@[i].2@ == lossy_text_of(cs[i].data)
                    &&& valid_utf8(cs[i].data) ==> v@[i].2@ == decode_utf8(cs[i].data)
                }
        },
        r matches Err(e) ==> png_parse_spec(file@) == Err::<Seq<ChunkView>, PngError>(e),
{
    let png = match Png::parse(file) {
        Ok(p) => p,
        Err(e) => return Err(e),
    };
    let chunks = png.chunks();
    let mut rows: Vec<(ChunkType, u32, String)> = Vec::new();
    let mut i: usize = 0;
    while i < chunks.len()
        invariant
            0 <= i <= chunks@.len(),
            chunks@.map_values(|c: Chunk| c@) == png@,
            rows@.len() == i,
            forall|j: int|
                0 <= j < i ==> {
                    &&& (#[trigger] rows@[j]).0@ == png@[j].kind
                    &&& rows@[j].1 == png@[j].crc
                    &&& rows@[j].2@ == lossy_text_of(png@[j].data)
                    &&& valid_utf8(png@[j].data) ==> rows@[j].2@ == decode_utf8(png@[j].data)
                },
        decreases chunks@.len() - i,
    {
        let c = &chunks[i];
        rows.push((*c.chunk_type(), c.crc(), c.data_as_lossy_string()));
        i = i + 1;
    }
    Ok(rows)
}

} // verus!
