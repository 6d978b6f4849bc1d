use std::convert::TryFrom;
use std::str::FromStr;

use pngchunk::chunk_type::{ChunkType, ChunkTypeError};

#[test]
pub fn test_chunk_type_from_bytes() {
    let expected = [82, 117, 83, 116];
    let actual = ChunkType::try_from([82, 117, 83, 116]).unwrap();

    assert_eq!(expected, actual.bytes());
}

#[test]
pub fn test_chunk_type_from_str() {
    let expected = ChunkType::try_from([82, 117, 83, 116]).unwrap();
    let actual = ChunkType::from_str("RuSt").unwrap();
    assert_eq!(expected, actual);
}

#[test]
pub fn test_chunk_type_is_critical() {
    let chunk = ChunkType::from_str("RuSt").unwrap();
    assert!(chunk.is_critical());
}

#[test]
pub fn test_chunk_type_is_not_critical() {
    let chunk = ChunkType::from_str("ruSt").unwrap();
    assert!(!chunk.is_critical());
}

#[test]
pub fn test_chunk_type_is_public() {
    let chunk = ChunkType::from_str("RUSt").unwrap();
    assert!(chunk.is_public());
}

#[test]
pub fn test_chunk_type_is_not_public() {
    let chunk = ChunkType::from_str("RuSt").unwrap();
    assert!(!chunk.is_public());
}

#[test]
pub fn test_chunk_type_is_reserved_bit_valid() {
    let chunk = ChunkType::from_str("RuSt").unwrap();
    assert!(chunk.is_reserved_bit_valid());
}

#[test]
pub fn test_chunk_type_is_reserved_bit_invalid() {
    let chunk = ChunkType::from_str("Rust").unwrap();
    assert!(!chunk.is_reserved_bit_valid());
}

#[test]
pub fn test_chunk_type_is_safe_to_copy() {
    let chunk = ChunkType::from_str("RuSt").unwrap();
    assert!(chunk.is_safe_to_copy());
}

#[test]
pub fn test_chunk_type_is_unsafe_to_copy() {
    let chunk = ChunkType::from_str("RuST").unwrap();
    assert!(!chunk.is_safe_to_copy());
}

#[test]
pub fn test_valid_chunk_is_valid() {
    let chunk = ChunkType::from_str("RuSt").unwrap();
    assert!(chunk.is_valid());
}

#[test]
pub fn test_invalid_chunk_is_valid() {
    let chunk = ChunkType::from_str("Rust").unwrap();
    assert!(!chunk.is_valid());

    let chunk = ChunkType::from_str("Ru1t");
    assert!(chunk.is_err());
}

#[test]
pub fn test_chunk_type_string() {
    let chunk = ChunkType::from_str("RuSt").unwrap();
    assert_eq!(&chunk.to_string(), "RuSt");
}

#[test]
pub fn test_chunk_type_trait_impls() {
    let chunk_type_1: ChunkType = TryFrom::try_from([82, 117, 83, 116]).unwrap();
    let chunk_type_2: ChunkType = FromStr::from_str("RuSt").unwrap();
    let _chunk_string = format!("{:?}", chunk_type_1);
    let _are_chunks_equal = chunk_type_1 == chunk_type_2;
}

#[test]
fn all_flags_of_rust_tag() {
    let t = ChunkType::from_text("RuSt").unwrap();
    assert!(t.is_critical());
    assert!(!t.is_public());
    assert!(t.is_reserved_bit_valid());
    assert!(t.is_safe_to_copy());
    assert!(t.is_valid());
}

#[test]
fn lowercase_reserved_letter_builds_but_is_not_valid() {
    let t = ChunkType::from_bytes(*b"Rust").unwrap();
    assert_eq!(t.bytes(), *b"Rust");
    assert!(!t.is_reserved_bit_valid());
    assert!(!t.is_valid());
}

#[test]
fn digit_in_text_is_reported_as_bad_byte() {
    assert_eq!(ChunkType::from_text("Ru1t"), Err(ChunkTypeError::BadByte(b'1')));
}

#[test]
fn bad_bytes_are_reported_first_to_last() {
    assert_eq!(ChunkType::from_bytes(*b"R t!"), Err(ChunkTypeError::BadByte(b' ')));
    assert_eq!(ChunkType::from_bytes(*b"Ru.t"), Err(ChunkTypeError::BadByte(b'.')));
    assert_eq!(ChunkType::from_bytes(*b"RuS9"), Err(ChunkTypeError::BadByte(b'9')));
    assert_eq!(ChunkType::from_bytes([0, 1, 2, 3]), Err(ChunkTypeError::BadByte(0)));
}

#[test]
fn letters_next_to_the_alphabet_are_refused() {
    for b in [b'@', b'[', b'`', b'{', 0x80, 0xc1, 0xff] {
        assert!(!ChunkType::is_valid_byte(b));
    }
    for b in [b'A', b'Z', b'a', b'z', b'm'] {
        assert!(ChunkType::is_valid_byte(b));
    }
}

#[test]
fn three_and_five_letters_give_length_errors() {
    assert_eq!(
        ChunkType::from_text("RuS"),
        Err(ChunkTypeError::BadLength(String::from("RuS"), 3))
    );
    assert_eq!(
        ChunkType::from_text("RuStX"),
        Err(ChunkTypeError::BadLength(String::from("RuStX"), 5))
    );
    assert_eq!(
        ChunkType::from_text("R1"),
        Err(ChunkTypeError::BadLength(String::from("R1"), 2))
    );
}

#[test]
fn length_counts_bytes_not_characters() {
    assert_eq!(
        ChunkType::from_text("Rußt"),
        Err(ChunkTypeError::BadLength(String::from("Rußt"), 5))
    );
    assert_eq!(
        ChunkType::from_text("Rß"),
        Err(ChunkTypeError::BadLength(String::from("Rß"), 3))
    );
}

#[test]
fn four_byte_text_with_non_ascii_is_a_bad_byte() {
    assert_eq!(ChunkType::from_text("Ruß"), Err(ChunkTypeError::BadByte(0xc3)));
    assert_eq!(ChunkType::from_text("Rßt"), Err(ChunkTypeError::BadByte(0xc3)));
}

#[test]
fn to_string_keeps_case() {
    let t = ChunkType::from_bytes(*b"aBcD").unwrap();
    assert_eq!(t.to_string(), "aBcD");
}
