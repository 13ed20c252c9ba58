use pngwhisper::{ChunkType, PngError};
use std::convert::TryFrom;
use std::str::FromStr;

#[test]
fn chunk_type_test_chunk_type_from_bytes() {
    let expected = [82, 117, 83, 116];
    let actual = ChunkType::try_from([82, 117, 83, 116]).unwrap();

    assert_eq!(expected, actual.bytes());
}

#[test]
fn chunk_type_test_chunk_type_from_str() {
    let expected = ChunkType::try_from([82, 117, 83, 116]).unwrap();
    let actual = ChunkType::from_str("RuSt").unwrap();
    assert_eq!(expected, actual);
}

#[test]
fn chunk_type_test_chunk_type_is_critical() {
    let chunk = ChunkType::from_str("RuSt").unwrap();
    assert!(chunk.is_critical());
}

#[test]
fn chunk_type_test_chunk_type_is_not_critical() {
    let chunk = ChunkType::from_str("ruSt").unwrap();
    assert!(!chunk.is_critical());
}

#[test]
fn chunk_type_test_chunk_type_is_public() {
    let chunk = ChunkType::from_str("RUSt").unwrap();
    assert!(chunk.is_public());
}

#[test]
fn chunk_type_test_chunk_type_is_not_public() {
    let chunk = ChunkType::from_str("RuSt").unwrap();
    assert!(!chunk.is_public());
}

#[test]
fn chunk_type_test_chunk_type_is_reserved_bit_valid() {
    let chunk = ChunkType::from_str("RuSt").unwrap();
    assert!(chunk.is_reserved_bit_valid());
}

#[test]
fn chunk_type_test_chunk_type_is_reserved_bit_invalid() {
    let chunk = ChunkType::from_str("Rust").unwrap();
    assert!(!chunk.is_reserved_bit_valid());
}

#[test]
fn chunk_type_test_chunk_type_is_safe_to_copy() {
    let chunk = ChunkType::from_str("RuSt").unwrap();
    assert!(chunk.is_safe_to_copy());
}

#[test]
fn chunk_type_test_chunk_type_is_unsafe_to_copy() {
    let chunk = ChunkType::from_str("RuST").unwrap();
    assert!(!chunk.is_safe_to_copy());
}

#[test]
fn chunk_type_test_valid_chunk_is_valid() {
    let chunk = ChunkType::from_str("RuSt").unwrap();
    assert!(chunk.is_valid());

    let chunk = ChunkType::from_str("RuST").unwrap();
    assert!(chunk.is_valid());

    let chunk = ChunkType::from_str("ruSt").unwrap();
    assert!(chunk.is_valid());
}

#[test]
fn chunk_type_test_invalid_chunk_is_valid() {
    let chunk = ChunkType::from_str("Rust").unwrap();
    assert!(!chunk.is_valid());

    let chunk = ChunkType::from_str("Ru1t");
    assert!(chunk.is_err());
}

#[test]
fn chunk_type_test_chunk_type_string() {
    let chunk = ChunkType::from_str("RuSt").unwrap();
    assert_eq!(&chunk.to_string(), "RuSt");
}

#[test]
fn chunk_type_test_chunk_type_trait_impls() {
    let chunk_type_1: ChunkType = TryFrom::try_from([82, 117, 83, 116]).unwrap();
    let chunk_type_2: ChunkType = FromStr::from_str("RuSt").unwrap();
    let _chunk_string = chunk_type_1.to_string();
    let _are_chunks_equal = chunk_type_1 == chunk_type_2;
}

#[test]
fn parse_rejects_digits_symbols_and_non_ascii() {
    for s in ["Ru1t", "RU-T", "R t ", "1234", "Ruét", "RuS", "RuStx", ""] {
        assert_eq!(ChunkType::parse_str(s), Err(PngError::InvalidChunkType), "{}", s);
    }
    for b in [[82u8, 117, 49, 116], [82, 85, 45, 84], [0, 117, 83, 116], [200, 117, 83, 116]] {
        assert_eq!(ChunkType::parse(b), Err(PngError::InvalidChunkType));
    }
    assert!(ChunkType::parse([b'A', b'z', b'Z', b'a']).is_ok());
}

#[test]
fn reserved_bit_decides_validity() {
    // The third letter of "RuSt" is upper case, so its reserved bit is clear.
    assert!(ChunkType::parse_str("RuSt").unwrap().is_valid());
    assert!(ChunkType::parse_str("RuST").unwrap().is_valid());
    assert!(!ChunkType::parse_str("Rust").unwrap().is_valid());
}

#[test]
fn chunk_types_compare_bytewise() {
    let a = ChunkType::parse_str("IHDR").unwrap();
    let b = ChunkType::parse(*b"IHDR").unwrap();
    let c = ChunkType::parse_str("IHDr").unwrap();
    assert!(a == b);
    assert!(a != c);
    assert!(a.same_as(&b));
    assert!(!a.same_as(&c));
}
