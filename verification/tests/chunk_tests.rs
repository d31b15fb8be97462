use pngpang::chunk::Chunk;
use pngpang::chunk_error::ChunkError;
use pngpang::chunk_type::ChunkType;

fn testing_bytes(good: bool) -> Vec<u8> {
    let data_length: u32 = 42;
    let chunk_type = "RuSt".as_bytes();
    let message_bytes = "This is where your secret message will be!".as_bytes();
    let crc: u32 = if good { 2882656334 } else { 2882656333 };

    let chunk_data: Vec<u8> = data_length
        .to_be_bytes()
        .iter()
        .chain(chunk_type.iter())
        .chain(message_bytes.iter())
        .chain(crc.to_be_bytes().iter())
        .copied()
        .collect();

    chunk_data
}

fn testing_chunk() -> Chunk {
    Chunk::try_from(testing_bytes(true).as_ref()).unwrap()
}

#[test]
fn test_chunk_length() {
    let chunk = testing_chunk();
    assert_eq!(chunk.length(), 42);
}

#[test]
fn test_chunk_type() {
    let chunk = testing_chunk();
    assert_eq!(chunk.chunk_type().to_string(), String::from("RuSt"));
}

#[test]
fn test_chunk_string() {
    let chunk = testing_chunk();
    let chunk_string = chunk.as_string().unwrap();
    let expected_chunk_string = String::from("This is where your secret message will be!");
    assert_eq!(chunk_string, expected_chunk_string);
}

#[test]
fn test_chunk_crc() {
    let chunk = testing_chunk();
    assert_eq!(chunk.crc(), 2882656334);
}

#[test]
fn test_valid_chunk_from_bytes() {
    let chunk = Chunk::try_from(testing_bytes(true).as_ref()).unwrap();

    let chunk_string = chunk.as_string().unwrap();
    let expected_chunk_string = String::from("This is where your secret message will be!");

    assert_eq!(chunk.length(), 42);
    assert_eq!(chunk.chunk_type().to_string(), String::from("RuSt"));
    assert_eq!(chunk_string, expected_chunk_string);
    assert_eq!(chunk.crc(), 2882656334);
}

#[test]
fn test_invalid_chunk_from_bytes() {
    let chunk = Chunk::try_from(testing_bytes(false).as_ref());

    assert!(chunk.is_err());
}

#[test]
pub fn test_chunk_trait_impls() {
    let chunk: Chunk = Chunk::try_from(testing_bytes(true).as_ref()).unwrap();

    let _chunk_string = format!(
        "len: {}  type: {}  crc: {}  data: {}",
        chunk.length(),
        chunk.chunk_type().to_string(),
        chunk.crc(),
        chunk.as_string().unwrap()
    );
}

#[test]
fn test_chunk_new_round_trip() {
    let chunk_type = ChunkType::from_str("teSt").unwrap();
    let chunk = Chunk::new(&chunk_type, b"hello".to_vec());
    let encoded = chunk.as_bytes();
    assert_eq!(encoded.len(), 12 + 5);

    let decoded = Chunk::try_from(encoded.as_ref()).unwrap();
    assert_eq!(decoded.length(), chunk.length());
    assert_eq!(decoded.chunk_type(), chunk.chunk_type());
    assert_eq!(decoded.crc(), chunk.crc());
    assert_eq!(decoded.as_string().unwrap(), "hello");
}

#[test]
fn test_chunk_new_empty_data() {
    let chunk_type = ChunkType::from_str("teSt").unwrap();
    let chunk = Chunk::new(&chunk_type, Vec::new());
    assert_eq!(chunk.length(), 0);
    let encoded = chunk.as_bytes();
    assert_eq!(encoded.len(), 12);
    let decoded = Chunk::try_from(encoded.as_ref()).unwrap();
    assert_eq!(decoded.crc(), chunk.crc());
}

#[test]
fn test_chunk_bit_flip_in_data_is_bad_crc() {
    // Flip one bit in each byte of the type and data regions in turn: the
    // decode must report a checksum mismatch every time.
    let good = testing_bytes(true);
    for pos in 4..good.len() - 4 {
        for bit in 0..8u8 {
            let mut corrupt = good.clone();
            corrupt[pos] ^= 1 << bit;
            let decoded = Chunk::try_from(corrupt.as_ref());
            assert!(matches!(decoded, Err(ChunkError::BadCRC)));
        }
    }
}

#[test]
fn test_chunk_too_short() {
    let empty: Vec<u8> = Vec::new();
    assert!(matches!(
        Chunk::try_from(empty.as_ref()),
        Err(ChunkError::TooShort)
    ));
    let eleven = vec![0u8; 11];
    assert!(matches!(
        Chunk::try_from(eleven.as_ref()),
        Err(ChunkError::TooShort)
    ));
}

#[test]
fn test_chunk_too_long() {
    // Twelve bytes declaring a 42-byte payload: the length overruns the
    // buffer.
    let mut buf = vec![0u8; 12];
    buf[3] = 42;
    buf[4] = b'R';
    buf[5] = b'u';
    buf[6] = b'S';
    buf[7] = b't';
    assert!(matches!(
        Chunk::try_from(buf.as_ref()),
        Err(ChunkError::TooLong)
    ));

    // A truncated copy of the good record fails the same way.
    let good = testing_bytes(true);
    let truncated = &good[..good.len() - 1];
    assert!(matches!(Chunk::try_from(truncated), Err(ChunkError::TooLong)));
}

#[test]
fn test_chunk_as_string_rejects_non_text() {
    let chunk_type = ChunkType::from_str("teSt").unwrap();
    let chunk = Chunk::new(&chunk_type, vec![0xFF, 0xFE, 0x00]);
    assert!(matches!(chunk.as_string(), Err(ChunkError::GenericError)));
}

#[test]
fn test_chunk_trailing_bytes_ignored() {
    let mut bytes = testing_bytes(true);
    bytes.extend_from_slice(&[1, 2, 3, 4]);
    let chunk = Chunk::try_from(bytes.as_ref()).unwrap();
    assert_eq!(chunk.length(), 42);
    assert_eq!(chunk.crc(), 2882656334);
}
