use pngwhisper::commands::{decode, encode, list_chunks, remove};
use pngwhisper::{Chunk, ChunkType, Png, PngError};

fn chunk(kind: &str, data: &[u8]) -> Chunk {
    Chunk::new(ChunkType::parse_str(kind).unwrap(), data.to_vec())
}

fn minimal_png() -> Vec<u8> {
    let ihdr = [0, 0, 0, 1, 0, 0, 0, 1, 8, 2, 0, 0, 0];
    Png::from_chunks(vec![chunk("IHDR", &ihdr), chunk("IEND", &[])]).as_bytes()
}

#[test]
fn signature_bytes() {
    assert_eq!(Png::standard_header(), vec![0x89, 0x50, 0x4E, 0x47, 0x0D, 0x0A, 0x1A, 0x0A]);
}

#[test]
fn minimal_file_layout() {
    let bytes = minimal_png();
    assert_eq!(bytes.len(), 8 + (12 + 13) + 12);
    assert_eq!(&bytes[..8], &Png::standard_header()[..]);
    assert_eq!(&bytes[12..16], b"IHDR");
    assert_eq!(&bytes[bytes.len() - 8..bytes.len() - 4], b"IEND");
    assert_eq!(&bytes[bytes.len() - 4..], &[0xAE, 0x42, 0x60, 0x82]);
}

#[test]
fn parse_then_serialize_gives_the_same_bytes() {
    let bytes = minimal_png();
    let png = Png::parse(&bytes).unwrap();
    assert_eq!(png.chunks().len(), 2);
    assert_eq!(png.as_bytes(), bytes);

    let mut bigger = Png::parse(&bytes).unwrap();
    bigger.append_chunk(chunk("teXt", b"a\0b\xff"));
    let bigger_bytes = bigger.as_bytes();
    assert_eq!(Png::parse(&bigger_bytes).unwrap().as_bytes(), bigger_bytes);
}

#[test]
fn empty_chunk_list_is_a_valid_file() {
    let bytes = Png::standard_header();
    let png = Png::parse(&bytes).unwrap();
    assert!(png.chunks().is_empty());
    assert_eq!(png.as_bytes(), bytes);
}

#[test]
fn bad_signature_is_rejected() {
    let mut bytes = minimal_png();
    bytes[1] = b'Q';
    assert_eq!(Png::parse(&bytes).err(), Some(PngError::BadSignature));
    assert_eq!(Png::parse(&[0x89, 0x50]).err(), Some(PngError::BadSignature));
    assert_eq!(Png::parse(&[]).err(), Some(PngError::BadSignature));
}

#[test]
fn cut_mid_payload_is_truncated() {
    let bytes = minimal_png();
    // Inside the IHDR data: its header is complete, its data is not.
    let cut = &bytes[..8 + 8 + 5];
    assert_eq!(Png::parse(cut).err(), Some(PngError::TruncatedChunk));
    // Inside the IHDR checksum.
    let cut = &bytes[..8 + 8 + 13 + 2];
    assert_eq!(Png::parse(cut).err(), Some(PngError::TruncatedChunk));
}

#[test]
fn short_leftover_is_trailing_bytes() {
    let mut bytes = minimal_png();
    bytes.extend_from_slice(&[0, 0, 0]);
    assert_eq!(Png::parse(&bytes).err(), Some(PngError::TrailingBytes));
    let cut = minimal_png();
    let cut = &cut[..cut.len() - 7];
    assert_eq!(Png::parse(cut).err(), Some(PngError::TrailingBytes));
}

#[test]
fn corrupted_chunk_in_file_is_crc_mismatch() {
    let mut bytes = minimal_png();
    bytes[20] ^= 0x01;
    assert_eq!(Png::parse(&bytes).err(), Some(PngError::CrcMismatch));
}

#[test]
fn search_and_remove_by_type() {
    let kind = ChunkType::parse_str("RuSt").unwrap();
    let mut png = Png::parse(&minimal_png()).unwrap();
    png.append_chunk(Chunk::new(kind, b"hello".to_vec()));
    png.append_chunk(Chunk::new(kind, b"world".to_vec()));

    let found = png.chunks_by_type(&kind);
    assert_eq!(found.len(), 2);
    assert_eq!(found[0].data(), b"hello");
    assert_eq!(found[1].data(), b"world");

    let first = png.remove_chunk(&kind).unwrap();
    assert_eq!(first.data(), b"hello");
    let second = png.remove_chunk(&kind).unwrap();
    assert_eq!(second.data(), b"world");
    assert_eq!(png.remove_chunk(&kind).err(), Some(PngError::ChunkNotFound));
    assert_eq!(png.as_bytes(), minimal_png());
}

#[test]
fn search_for_absent_type_is_empty() {
    let png = Png::parse(&minimal_png()).unwrap();
    assert!(png.chunks_by_type(&ChunkType::parse_str("RuSt").unwrap()).is_empty());
}

#[test]
fn remove_keeps_the_order_of_the_rest() {
    let mut png = Png::from_chunks(vec![
        chunk("IHDR", b"h"),
        chunk("RuSt", b"1"),
        chunk("IDAT", b"d"),
        chunk("RuSt", b"2"),
        chunk("IEND", b""),
    ]);
    let kind = ChunkType::parse_str("RuSt").unwrap();
    assert_eq!(png.position_of_type(&kind), Some(1));
    png.remove_chunk(&kind).unwrap();
    let kinds: Vec<String> = png.chunks().iter().map(|c| c.chunk_type().to_string()).collect();
    assert_eq!(kinds, vec!["IHDR", "IDAT", "RuSt", "IEND"]);
}

#[test]
fn remove_all_counts_what_it_removed() {
    let kind = ChunkType::parse_str("RuSt").unwrap();
    let mut png = Png::from_chunks(vec![
        chunk("RuSt", b"0"),
        chunk("IHDR", b"h"),
        chunk("RuSt", b"1"),
        chunk("RuSt", b"2"),
        chunk("IEND", b""),
    ]);
    assert_eq!(png.remove_all_chunks(&kind), 3);
    let kinds: Vec<String> = png.chunks().iter().map(|c| c.chunk_type().to_string()).collect();
    assert_eq!(kinds, vec!["IHDR", "IEND"]);
    assert_eq!(png.remove_all_chunks(&kind), 0);
    assert_eq!(png.position_of_type(&kind), None);
}

#[test]
fn encode_then_decode_secret_message() {
    let message = "This is where your secret message will be!";
    let kind = ChunkType::parse_str("RuSt").unwrap();
    let encoded = encode(&minimal_png(), message, kind).unwrap();

    let png = Png::parse(&encoded).unwrap();
    let last = png.chunks().last().unwrap();
    assert_eq!(last.length(), 42);
    assert_eq!(last.crc(), 2882656334);
    assert_eq!(last.chunk_type().to_string(), "RuSt");

    assert_eq!(decode(&encoded, kind).unwrap(), vec![message.to_string()]);
}

#[test]
fn decode_without_matches_is_empty() {
    let kind = ChunkType::parse_str("RuSt").unwrap();
    assert_eq!(decode(&minimal_png(), kind).unwrap(), Vec::<String>::new());
}

#[test]
fn commands_pass_parse_errors_on() {
    let kind = ChunkType::parse_str("RuSt").unwrap();
    let bad = vec![1, 2, 3];
    assert_eq!(encode(&bad, "x", kind).err(), Some(PngError::BadSignature));
    assert_eq!(decode(&bad, kind).err(), Some(PngError::BadSignature));
    assert_eq!(remove(&bad, kind, false).err(), Some(PngError::BadSignature));
    assert_eq!(list_chunks(&bad).err(), Some(PngError::BadSignature));
}

#[test]
fn remove_command_first_or_all() {
    let kind = ChunkType::parse_str("RuSt").unwrap();
    let once = encode(&minimal_png(), "one", kind).unwrap();
    let twice = encode(&once, "two", kind).unwrap();

    let after_first = remove(&twice, kind, false).unwrap();
    assert_eq!(decode(&after_first, kind).unwrap(), vec!["two".to_string()]);

    let after_all = remove(&twice, kind, true).unwrap();
    assert_eq!(after_all, minimal_png());

    assert_eq!(remove(&minimal_png(), kind, true).err(), Some(PngError::ChunkNotFound));
    assert_eq!(remove(&minimal_png(), kind, false).err(), Some(PngError::ChunkNotFound));
}

#[test]
fn list_chunks_reports_each_chunk() {
    let kind = ChunkType::parse_str("RuSt").unwrap();
    let file = encode(&minimal_png(), "hi", kind).unwrap();
    let rows = list_chunks(&file).unwrap();
    assert_eq!(rows.len(), 3);
    assert_eq!(rows[0].0.to_string(), "IHDR");
    assert_eq!(rows[1].0.to_string(), "IEND");
    assert_eq!(rows[1].1, 0xAE426082);
    assert_eq!(rows[2].0.to_string(), "RuSt");
    assert_eq!(rows[2].2, "hi");
}
