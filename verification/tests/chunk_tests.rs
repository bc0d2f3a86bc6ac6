use pngme::chunk::Chunk;
use pngme::chunk::ChunkParseError;
use pngme::chunk_type::ChunkType;

fn testing_chunk() -> Chunk {
    let data_length: u32 = 42;
    let chunk_type = "RuSt".as_bytes();
    let message_bytes = "This is where your secret message will be!".as_bytes();
    let crc: u32 = 2882656334;

    let chunk_data: Vec<u8> = data_length
        .to_be_bytes()
        .iter()
        .chain(chunk_type.iter())
        .chain(message_bytes.iter())
        .chain(crc.to_be_bytes().iter())
        .copied()
        .collect();

    Chunk::parse(chunk_data.as_ref()).unwrap()
}

#[test]
fn test_new_chunk() {
    let chunk_type = ChunkType::parse_str("RuSt").unwrap();
    let data = "This is where your secret message will be!"
        .as_bytes()
        .to_vec();
    let chunk = Chunk::new(chunk_type, data);
    assert_eq!(chunk.length(), 42);
    assert_eq!(chunk.crc(), 2882656334);
}

#[test]
fn test_chunk_length() {
    let chunk = testing_chunk();
    assert_eq!(chunk.length(), 42);
}

#[test]
fn test_chunk_type() {
    let chunk = testing_chunk();
    assert_eq!(chunk.chunk_type().to_string(), String::from("RuSt"));
}

#[test]
fn test_chunk_string() {
    let chunk = testing_chunk();
    let chunk_string = chunk.data_as_string().unwrap();
    let expected_chunk_string = String::from("This is where your secret message will be!");
    assert_eq!(chunk_string, expected_chunk_string);
}

#[test]
fn test_chunk_crc() {
    let chunk = testing_chunk();
    assert_eq!(chunk.crc(), 2882656334);
}

#[test]
fn test_valid_chunk_from_bytes() {
    let data_length: u32 = 42;
    let chunk_type = "RuSt".as_bytes();
    let message_bytes = "This is where your secret message will be!".as_bytes();
    let crc: u32 = 2882656334;

    let chunk_data: Vec<u8> = data_length
        .to_be_bytes()
        .iter()
        .chain(chunk_type.iter())
        .chain(message_bytes.iter())
        .chain(crc.to_be_bytes().iter())
        .copied()
        .collect();

    let chunk = Chunk::parse(chunk_data.as_ref()).unwrap();

    let chunk_string = chunk.data_as_string().unwrap();
    let expected_chunk_string = String::from("This is where your secret message will be!");

    assert_eq!(chunk.length(), 42);
    assert_eq!(chunk.chunk_type().to_string(), String::from("RuSt"));
    assert_eq!(chunk_string, expected_chunk_string);
    assert_eq!(chunk.crc(), 2882656334);
}

#[test]
fn test_invalid_chunk_from_bytes() {
    let data_length: u32 = 42;
    let chunk_type = "RuSt".as_bytes();
    let message_bytes = "This is where your secret message will be!".as_bytes();
    let crc: u32 = 2882656333;

    let chunk_data: Vec<u8> = data_length
        .to_be_bytes()
        .iter()
        .chain(chunk_type.iter())
        .chain(message_bytes.iter())
        .chain(crc.to_be_bytes().iter())
        .copied()
        .collect();

    let chunk = Chunk::parse(chunk_data.as_ref());

    assert!(chunk.is_err());
}

#[test]
fn test_invalid_chunk_length() {
    let data_length: u32 = 9999; // Way too big
    let chunk_type = "RuSt".as_bytes();
    let message_bytes = "This is where your secret message will be!".as_bytes();
    let crc: u32 = 2882656334;

    let chunk_data: Vec<u8> = data_length
        .to_be_bytes()
        .iter()
        .chain(chunk_type.iter())
        .chain(message_bytes.iter())
        .chain(crc.to_be_bytes().iter())
        .copied()
        .collect();

    let chunk = Chunk::parse(chunk_data.as_ref());
    assert_eq!(
        chunk.err().unwrap(),
        ChunkParseError::InvalidLengthField {
            expected: 42,
            found: 9999
        }
    );
}

#[test]
fn test_empty_chunk() {
    let data: &[u8] = &[];
    let chunk = Chunk::parse(data);
    assert_eq!(chunk.err().unwrap(), ChunkParseError::Incomplete);
}

#[test]
pub fn test_chunk_trait_impls() {
    let data_length: u32 = 42;
    let chunk_type = "RuSt".as_bytes();
    let message_bytes = "This is where your secret message will be!".as_bytes();
    let crc: u32 = 2882656334;

    let chunk_data: Vec<u8> = data_length
        .to_be_bytes()
        .iter()
        .chain(chunk_type.iter())
        .chain(message_bytes.iter())
        .chain(crc.to_be_bytes().iter())
        .copied()
        .collect();

    let chunk: Chunk = Chunk::parse(chunk_data.as_ref()).unwrap();

    let _chunk_string = format!("{:?}", chunk);
}

#[test]
fn test_short_chunk_incomplete() {
    let data: &[u8] = &[0, 0, 0, 0, b'R', b'u', b'S', b't', 0, 0, 0];
    let chunk = Chunk::parse(data);
    assert_eq!(chunk.err().unwrap(), ChunkParseError::Incomplete);
}

#[test]
fn test_invalid_checksum_reported() {
    let chunk_type = ChunkType::parse_str("RuSt").unwrap();
    let data = "This is where your secret message will be!"
        .as_bytes()
        .to_vec();
    let chunk = Chunk::new(chunk_type, data);
    let mut bytes = chunk.as_bytes();
    let last = bytes.len() - 1;
    bytes[last] = bytes[last].wrapping_sub(1);
    let reparsed = Chunk::parse(bytes.as_ref());
    assert_eq!(reparsed.err().unwrap(), ChunkParseError::InvalidChecksum);
}

#[test]
fn test_invalid_type_byte_propagated() {
    let data_length: u32 = 0;
    let crc: u32 = 0;
    let chunk_data: Vec<u8> = data_length
        .to_be_bytes()
        .iter()
        .chain([b'R', b'u', b'1', b't'].iter())
        .chain(crc.to_be_bytes().iter())
        .copied()
        .collect();
    let chunk = Chunk::parse(chunk_data.as_ref());
    assert_eq!(
        chunk.err().unwrap(),
        ChunkParseError::InvalidChunkType(
            pngme::chunk_type::ChunkTypeParseError::InvalidByte(b'1')
        )
    );
}

#[test]
fn test_chunk_round_trip() {
    let chunk_type = ChunkType::parse_str("RuSt").unwrap();
    let data = "any payload at all".as_bytes().to_vec();
    let chunk = Chunk::new(chunk_type, data.clone());
    let bytes = chunk.as_bytes();
    let reparsed = Chunk::parse(bytes.as_ref()).unwrap();
    assert_eq!(reparsed.length(), chunk.length());
    assert_eq!(reparsed.chunk_type().bytes(), chunk.chunk_type().bytes());
    assert_eq!(reparsed.data(), chunk.data());
    assert_eq!(reparsed.crc(), chunk.crc());
    assert_eq!(reparsed.as_bytes(), bytes);
}

#[test]
fn test_crc_deterministic() {
    let t1 = ChunkType::parse_str("RuSt").unwrap();
    let t2 = ChunkType::parse_str("RuSt").unwrap();
    let c1 = Chunk::new(t1, vec![1, 2, 3]);
    let c2 = Chunk::new(t2, vec![1, 2, 3]);
    assert_eq!(c1.crc(), c2.crc());
}

#[test]
fn test_length_equals_payload_len() {
    let t = ChunkType::parse_str("teSt").unwrap();
    let c = Chunk::new(t, vec![9; 17]);
    assert_eq!(c.length(), 17);
    let t = ChunkType::parse_str("teSt").unwrap();
    let c = Chunk::new(t, Vec::new());
    assert_eq!(c.length(), 0);
}

#[test]
fn test_data_as_string_invalid_utf8() {
    let t = ChunkType::parse_str("RuSt").unwrap();
    let c = Chunk::new(t, vec![0xff, 0xfe, 0xfd]);
    assert!(c.data_as_string().is_none());
}
