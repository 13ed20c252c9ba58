use pngwhisper::{Chunk, ChunkType, PngError};
use std::str::FromStr;

fn testing_chunk() -> Chunk {
    let data_length: u32 = 42;
    let chunk_type = "RuSt".as_bytes();
    let message_bytes = "This is where your secret message will be!".as_bytes();
    let crc: u32 = 2882656334;

    let chunk_data: Vec<u8> = data_length
        .to_be_bytes()
        .iter()
        .chain(chunk_type.iter())
        .chain(message_bytes.iter())
        .chain(crc.to_be_bytes().iter())
        .copied()
        .collect();

    Chunk::try_from(chunk_data.as_ref()).unwrap()
}

#[test]
fn test_new_chunk() {
    let chunk_type = ChunkType::from_str("RuSt").unwrap();
    let data = "This is where your secret message will be!"
        .as_bytes()
        .to_vec();
    let chunk = Chunk::new(chunk_type, data);
    assert_eq!(chunk.length(), 42);
    assert_eq!(chunk.crc(), 2882656334);
}

#[test]
fn test_chunk_length() {
    let chunk = testing_chunk();
    assert_eq!(chunk.length(), 42);
}

#[test]
fn test_chunk_type() {
    let chunk = testing_chunk();
    assert_eq!(chunk.chunk_type().to_string(), String::from("RuSt"));
}

#[test]
fn test_chunk_string() {
    let chunk = testing_chunk();
    let chunk_string = chunk.data_as_string().unwrap();
    let expected_chunk_string = String::from("This is where your secret message will be!");
    assert_eq!(chunk_string, expected_chunk_string);
}

#[test]
fn test_chunk_crc() {
    let chunk = testing_chunk();
    assert_eq!(chunk.crc(), 2882656334);
}

#[test]
fn test_valid_chunk_from_bytes() {
    let data_length: u32 = 42;
    let chunk_type = "RuSt".as_bytes();
    let message_bytes = "This is where your secret message will be!".as_bytes();
    let crc: u32 = 2882656334;

    let chunk_data: Vec<u8> = data_length
        .to_be_bytes()
        .iter()
        .chain(chunk_type.iter())
        .chain(message_bytes.iter())
        .chain(crc.to_be_bytes().iter())
        .copied()
        .collect();

    let chunk = Chunk::try_from(chunk_data.as_ref()).unwrap();

    let chunk_string = chunk.data_as_string().unwrap();
    let expected_chunk_string = String::from("This is where your secret message will be!");

    assert_eq!(chunk.length(), 42);
    assert_eq!(chunk.chunk_type().to_string(), String::from("RuSt"));
    assert_eq!(chunk_string, expected_chunk_string);
    assert_eq!(chunk.crc(), 2882656334);
}

#[test]
fn test_invalid_chunk_from_bytes() {
    let data_length: u32 = 42;
    let chunk_type = "RuSt".as_bytes();
    let message_bytes = "This is where your secret message will be!".as_bytes();
    let crc: u32 = 2882656333;

    let chunk_data: Vec<u8> = data_length
        .to_be_bytes()
        .iter()
        .chain(chunk_type.iter())
        .chain(message_bytes.iter())
        .chain(crc.to_be_bytes().iter())
        .copied()
        .collect();

    let chunk = Chunk::try_from(chunk_data.as_ref());

    assert!(chunk.is_err());
}

#[test]
pub fn test_chunk_trait_impls() {
    let data_length: u32 = 42;
    let chunk_type = "RuSt".as_bytes();
    let message_bytes = "This is where your secret message will be!".as_bytes();
    let crc: u32 = 2882656334;

    let chunk_data: Vec<u8> = data_length
        .to_be_bytes()
        .iter()
        .chain(chunk_type.iter())
        .chain(message_bytes.iter())
        .chain(crc.to_be_bytes().iter())
        .copied()
        .collect();

    let chunk: Chunk = TryFrom::try_from(chunk_data.as_ref()).unwrap();

    let _chunk_string = chunk.to_string();
}

fn secret_chunk() -> Chunk {
    Chunk::new(
        ChunkType::parse_str("RuSt").unwrap(),
        b"This is where your secret message will be!".to_vec(),
    )
}

#[test]
fn chunk_bytes_layout() {
    let chunk = secret_chunk();
    let bytes = chunk.as_bytes();
    assert_eq!(bytes.len(), 12 + 42);
    assert_eq!(&bytes[0..4], &[0, 0, 0, 42]);
    assert_eq!(&bytes[4..8], b"RuSt");
    assert_eq!(&bytes[8..50], b"This is where your secret message will be!");
    assert_eq!(&bytes[50..54], &2882656334u32.to_be_bytes());
}

#[test]
fn chunk_round_trips_through_bytes() {
    let chunk = secret_chunk();
    let bytes = chunk.as_bytes();
    let back = Chunk::parse(&bytes).unwrap();
    assert_eq!(back.as_bytes(), bytes);
    assert_eq!(back.crc(), chunk.crc());
    assert_eq!(back.data(), chunk.data());
}

#[test]
fn parse_ignores_bytes_after_the_chunk() {
    let mut bytes = secret_chunk().as_bytes();
    bytes.extend_from_slice(&[1, 2, 3]);
    let chunk = Chunk::parse(&bytes).unwrap();
    assert_eq!(chunk.length(), 42);
}

#[test]
fn checksum_is_reproducible() {
    let a = secret_chunk();
    let b = secret_chunk();
    assert_eq!(a.crc(), b.crc());
    assert_eq!(a.crc(), 2882656334);
}

#[test]
fn checksum_of_empty_data() {
    // CRC-32/ISO-HDLC of the four bytes "IEND".
    let chunk = Chunk::new(ChunkType::parse_str("IEND").unwrap(), Vec::new());
    assert_eq!(chunk.crc(), 0xAE426082);
    assert_eq!(chunk.length(), 0);
}

#[test]
fn flipping_any_payload_or_crc_bit_is_a_crc_mismatch() {
    let bytes = secret_chunk().as_bytes();
    for i in 8..bytes.len() {
        for bit in 0..8 {
            let mut bad = bytes.clone();
            bad[i] ^= 1 << bit;
            assert_eq!(Chunk::parse(&bad).err(), Some(PngError::CrcMismatch), "byte {} bit {}", i, bit);
        }
    }
}

#[test]
fn truncated_chunks_are_rejected() {
    let bytes = secret_chunk().as_bytes();
    for cut in 0..bytes.len() {
        assert_eq!(Chunk::parse(&bytes[..cut]).err(), Some(PngError::TruncatedChunk), "cut at {}", cut);
    }
}

#[test]
fn invalid_type_in_chunk_is_rejected() {
    let mut bytes = secret_chunk().as_bytes();
    bytes[6] = b'1';
    assert_eq!(Chunk::parse(&bytes).err(), Some(PngError::InvalidChunkType));
}

#[test]
fn non_utf8_data_is_not_text() {
    let chunk = Chunk::new(ChunkType::parse_str("RuSt").unwrap(), vec![b'h', 0xff, b'i']);
    assert_eq!(chunk.data_as_string(), Err(PngError::NotUtf8));
    assert_eq!(chunk.data_as_lossy_string(), "h\u{FFFD}i");
}

#[test]
fn chunk_as_text_line() {
    let chunk = secret_chunk();
    assert_eq!(
        chunk.to_string(),
        "RuSt (2882656334): \"This is where your secret message will be!\""
    );
    let empty = Chunk::new(ChunkType::parse_str("IEND").unwrap(), Vec::new());
    assert_eq!(empty.to_string(), "IEND (2923585666): \"\"");
}
