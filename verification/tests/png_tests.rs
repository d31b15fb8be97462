use pngpang::chunk::Chunk;
use pngpang::chunk_error::ChunkError;
use pngpang::chunk_type::ChunkType;
use pngpang::png::Png;
use pngpang::png_error::PngError;

const SIGNATURE: [u8; 8] = [0x89, 0x50, 0x4E, 0x47, 0x0D, 0x0A, 0x1A, 0x0A];

fn minimal_png() -> Png {
    let header = Chunk::new(&ChunkType::header_chunk(), vec![0; 13]);
    let end = Chunk::new(&ChunkType::end_chunk(), Vec::new());
    Png::from_chunks(vec![header, end])
}

#[test]
fn test_png_append_lookup_remove() {
    let mut png = minimal_png();
    let chunk_type = ChunkType::from_str("teSt").unwrap();
    png.append_chunk(Chunk::new(&chunk_type, b"hello".to_vec()));

    let found = png.chunk_by_type(&chunk_type).unwrap();
    assert_eq!(found.as_string().unwrap(), "hello");

    let removed = png.remove_chunk(&chunk_type).unwrap();
    assert_eq!(removed.as_string().unwrap(), "hello");
    assert!(png.chunk_by_type(&chunk_type).is_none());

    let again = png.remove_chunk(&chunk_type);
    assert!(matches!(again, Err(PngError::ChunkNotFound)));
}

#[test]
fn test_png_append_keeps_end_chunk_last() {
    let mut png = minimal_png();
    let chunk_type = ChunkType::from_str("teSt").unwrap();
    png.append_chunk(Chunk::new(&chunk_type, b"hello".to_vec()));

    let chunks = png.chunks();
    assert_eq!(chunks.len(), 3);
    assert_eq!(&chunks[0].chunk_type().to_string(), "IHDR");
    assert_eq!(&chunks[1].chunk_type().to_string(), "teSt");
    assert_eq!(&chunks[2].chunk_type().to_string(), "IEND");
}

#[test]
fn test_png_encode_decode_round_trip() {
    let mut png = minimal_png();
    let chunk_type = ChunkType::from_str("RuSt").unwrap();
    png.append_chunk(Chunk::new(&chunk_type, b"secret".to_vec()));

    let bytes = png.as_bytes();
    assert_eq!(&bytes[..8], &SIGNATURE);

    let decoded = Png::try_from(bytes.as_ref()).unwrap();
    assert_eq!(decoded.chunks().len(), 3);
    assert_eq!(decoded.as_bytes(), bytes);
    let found = decoded.chunk_by_type(&chunk_type).unwrap();
    assert_eq!(found.as_string().unwrap(), "secret");
}

#[test]
fn test_png_decode_bad_header() {
    let png = minimal_png();
    let mut bytes = png.as_bytes();
    bytes[0] = 0x88;
    assert!(matches!(
        Png::try_from(bytes.as_ref()),
        Err(PngError::BadHeader)
    ));

    let short: [u8; 4] = [0x89, 0x50, 0x4E, 0x47];
    assert!(matches!(Png::try_from(&short[..]), Err(PngError::BadHeader)));
}

#[test]
fn test_png_decode_missing_required_chunks() {
    // Signature followed by a single stray chunk: no header, no end marker.
    let mut bytes = SIGNATURE.to_vec();
    let stray = Chunk::new(&ChunkType::from_str("teSt").unwrap(), b"hi".to_vec());
    bytes.extend_from_slice(&stray.as_bytes());
    assert!(matches!(
        Png::try_from(bytes.as_ref()),
        Err(PngError::MissingRequiredChunks)
    ));

    // A bare signature fails the same way.
    assert!(matches!(
        Png::try_from(&SIGNATURE[..]),
        Err(PngError::MissingRequiredChunks)
    ));
}

#[test]
fn test_png_decode_wraps_chunk_error() {
    let png = minimal_png();
    let mut bytes = png.as_bytes();
    // Corrupt one data byte of the header chunk: its CRC no longer matches.
    bytes[16] ^= 0x01;
    assert!(matches!(
        Png::try_from(bytes.as_ref()),
        Err(PngError::ChunkError(ChunkError::BadCRC))
    ));

    // Truncate the trailing end chunk below twelve bytes: too short.
    let good = png.as_bytes();
    let truncated = &good[..good.len() - 1];
    assert!(matches!(
        Png::try_from(truncated),
        Err(PngError::ChunkError(ChunkError::TooShort))
    ));

    // A header chunk cut off mid-data declares more than remains: too long.
    let header_only = &good[..8 + 24];
    assert!(matches!(
        Png::try_from(header_only),
        Err(PngError::ChunkError(ChunkError::TooLong))
    ));
}

#[test]
fn test_png_first_match_policy() {
    let mut png = minimal_png();
    let chunk_type = ChunkType::from_str("teSt").unwrap();
    png.append_chunk(Chunk::new(&chunk_type, b"first".to_vec()));
    png.append_chunk(Chunk::new(&chunk_type, b"second".to_vec()));

    let found = png.chunk_by_type(&chunk_type).unwrap();
    assert_eq!(found.as_string().unwrap(), "first");

    png.remove_chunk(&chunk_type).unwrap();
    let found = png.chunk_by_type(&chunk_type).unwrap();
    assert_eq!(found.as_string().unwrap(), "second");
}

#[test]
fn test_png_new_is_empty() {
    let png = Png::new();
    assert_eq!(png.chunks().len(), 0);
    let bytes = png.as_bytes();
    assert_eq!(bytes, SIGNATURE.to_vec());
}
