use pngme::chunk::Chunk;
use pngme::chunk_type::ChunkType;
use pngme::png::Png;
use pngme::png::PngParseError;

fn chunk_of(type_code: &str, message: &str) -> Chunk {
    let chunk_type = ChunkType::parse_str(type_code).unwrap();
    Chunk::new(chunk_type, message.as_bytes().to_vec())
}

fn testing_png() -> Png {
    let chunks = vec![
        chunk_of("FrSt", "I am the first chunk"),
        chunk_of("miDl", "I am another chunk"),
        chunk_of("LASt", "I am the last chunk"),
    ];
    Png::from_chunks(chunks)
}

#[test]
fn test_png_round_trip() {
    let png = testing_png();
    let bytes = png.as_bytes();
    let reparsed = Png::parse(bytes.as_ref()).unwrap();
    assert_eq!(reparsed.chunks().len(), png.chunks().len());
    for (a, b) in reparsed.chunks().iter().zip(png.chunks().iter()) {
        assert_eq!(a.as_bytes(), b.as_bytes());
    }
    assert_eq!(reparsed.as_bytes(), bytes);
}

#[test]
fn test_empty_png_round_trip() {
    let png = Png::new();
    let bytes = png.as_bytes();
    assert_eq!(bytes, vec![137, 80, 78, 71, 13, 10, 26, 10]);
    let reparsed = Png::parse(bytes.as_ref()).unwrap();
    assert_eq!(reparsed.chunks().len(), 0);
}

#[test]
fn test_png_invalid_signature() {
    let mut bytes = testing_png().as_bytes();
    bytes[0] = 13;
    let reparsed = Png::parse(bytes.as_ref());
    assert_eq!(reparsed.err().unwrap(), PngParseError::InvalidSignature);
}

#[test]
fn test_png_truncated_signature() {
    let bytes: &[u8] = &[137, 80, 78];
    let reparsed = Png::parse(bytes);
    assert_eq!(reparsed.err().unwrap(), PngParseError::InvalidSignature);
}

#[test]
fn test_png_truncated_chunk() {
    let mut bytes = testing_png().as_bytes();
    bytes.pop();
    let reparsed = Png::parse(bytes.as_ref());
    assert_eq!(
        reparsed.err().unwrap(),
        PngParseError::InvalidChunk(pngme::chunk::ChunkParseError::Incomplete)
    );
}

#[test]
fn test_png_corrupt_chunk_checksum() {
    let mut bytes = testing_png().as_bytes();
    let last = bytes.len() - 1;
    bytes[last] = bytes[last].wrapping_add(1);
    let reparsed = Png::parse(bytes.as_ref());
    assert_eq!(
        reparsed.err().unwrap(),
        PngParseError::InvalidChunk(pngme::chunk::ChunkParseError::InvalidChecksum)
    );
}

#[test]
fn test_append_then_remove_restores() {
    let mut png = testing_png();
    let before: Vec<Vec<u8>> = png.chunks().iter().map(|c| c.as_bytes()).collect();
    png.append_chunk(chunk_of("ruSt", "Message"));
    let target = ChunkType::parse_str("ruSt").unwrap();
    let removed = png.remove_chunk(&target).unwrap();
    assert_eq!(removed.chunk_type().bytes(), *b"ruSt");
    assert_eq!(removed.data_as_string().unwrap(), "Message");
    let after: Vec<Vec<u8>> = png.chunks().iter().map(|c| c.as_bytes()).collect();
    assert_eq!(before, after);
}

#[test]
fn test_remove_absent_type_fails() {
    let mut png = testing_png();
    let target = ChunkType::parse_str("noNe").unwrap();
    assert!(png.remove_chunk(&target).is_err());
    assert_eq!(png.chunks().len(), 3);
}

#[test]
fn test_chunk_by_type_returns_first() {
    let chunks = vec![
        chunk_of("FrSt", "I am the first chunk"),
        chunk_of("duPe", "first of my type"),
        chunk_of("duPe", "second of my type"),
    ];
    let png = Png::from_chunks(chunks);
    let target = ChunkType::parse_str("duPe").unwrap();
    let found = png.chunk_by_type(&target).unwrap();
    assert_eq!(found.data_as_string().unwrap(), "first of my type");
}

#[test]
fn test_chunk_by_type_absent() {
    let png = testing_png();
    let target = ChunkType::parse_str("noNe").unwrap();
    assert!(png.chunk_by_type(&target).is_none());
}

#[test]
fn test_append_chunk_keeps_order() {
    let mut png = Png::new();
    png.append_chunk(chunk_of("oneA", "1"));
    png.append_chunk(chunk_of("twoB", "2"));
    assert_eq!(png.chunks().len(), 2);
    assert_eq!(png.chunks()[0].chunk_type().bytes(), *b"oneA");
    assert_eq!(png.chunks()[1].chunk_type().bytes(), *b"twoB");
}
