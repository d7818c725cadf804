use adb_sync::bytes::WireError;
use adb_sync::bytes::decode_bool;
use adb_sync::bytes::decode_byte_string;
use adb_sync::bytes::decode_text;
use adb_sync::bytes::decode_u32;
use adb_sync::bytes::decode_u64;
use adb_sync::bytes::encode_bool;
use adb_sync::bytes::encode_byte_string;
use adb_sync::bytes::encode_text;
use adb_sync::bytes::encode_u32;
use adb_sync::bytes::encode_u64;
use adb_sync::bytes::read_u32_le;
use adb_sync::bytes::same_bytes;
use adb_sync::bytes::write_u32_le;

#[test]
fn small_integers_take_one_byte() {
    assert_eq!(encode_u64(0), vec![0u8]);
    assert_eq!(encode_u64(250), vec![250u8]);
    assert_eq!(encode_u32(7), vec![7u8]);
}

#[test]
fn larger_integers_take_a_marker_and_little_endian_bytes() {
    assert_eq!(encode_u64(251), vec![251u8, 251, 0]);
    assert_eq!(encode_u64(0x1234), vec![251u8, 0x34, 0x12]);
    assert_eq!(encode_u64(0x10000), vec![252u8, 0, 0, 1, 0]);
    assert_eq!(encode_u32(0xFFFF_FFFF), vec![252u8, 0xFF, 0xFF, 0xFF, 0xFF]);
    assert_eq!(encode_u64(0x1_0000_0000), vec![253u8, 0, 0, 0, 0, 1, 0, 0, 0]);
    assert_eq!(encode_u64(u64::MAX), vec![253u8, 255, 255, 255, 255, 255, 255, 255, 255]);
}

#[test]
fn integers_decode_with_their_length() {
    assert_eq!(decode_u64(&[5, 9, 9]), Ok((5, 1)));
    assert_eq!(decode_u64(&[251, 0x34, 0x12, 9]), Ok((0x1234, 3)));
    assert_eq!(decode_u64(&[253, 0, 0, 0, 0, 1, 0, 0, 0]), Ok((0x1_0000_0000, 9)));
    assert_eq!(decode_u32(&[252, 1, 0, 0, 0]), Ok((1, 5)));
}

#[test]
fn integer_decoding_tells_short_from_wrong() {
    assert_eq!(decode_u64(&[]), Err(WireError::Truncated));
    assert_eq!(decode_u64(&[251, 1]), Err(WireError::Truncated));
    assert_eq!(decode_u64(&[254, 0, 0, 0, 0, 0, 0, 0, 0, 0, 0, 0, 0, 0, 0, 0, 0]), Err(WireError::Malformed));
    assert_eq!(decode_u64(&[255]), Err(WireError::Malformed));
    assert_eq!(decode_u32(&[253, 1, 0, 0, 0, 0, 0, 0, 0]), Err(WireError::Malformed));
    assert_eq!(decode_u32(&[252, 1, 0]), Err(WireError::Truncated));
}

#[test]
fn truth_values_are_one_byte() {
    assert_eq!(encode_bool(true), vec![1u8]);
    assert_eq!(encode_bool(false), vec![0u8]);
    assert_eq!(decode_bool(&[1, 7]), Ok((true, 1)));
    assert_eq!(decode_bool(&[0]), Ok((false, 1)));
    assert_eq!(decode_bool(&[2]), Err(WireError::Malformed));
    assert_eq!(decode_bool(&[]), Err(WireError::Truncated));
}

#[test]
fn byte_strings_carry_their_length() {
    assert_eq!(encode_byte_string(b"abc"), vec![3u8, b'a', b'b', b'c']);
    assert_eq!(encode_byte_string(b""), vec![0u8]);
    let long = vec![7u8; 300];
    let encoded = encode_byte_string(&long);
    assert_eq!(&encoded[..3], &[251u8, 0x2C, 0x01]);
    assert_eq!(encoded.len(), 303);
    assert_eq!(decode_byte_string(&encoded), Ok((long, 303)));
    assert_eq!(decode_byte_string(&[3, b'a', b'b', b'c', 9]), Ok((b"abc".to_vec(), 4)));
    assert_eq!(decode_byte_string(&[3, b'a', b'b']), Err(WireError::Truncated));
    assert_eq!(
        decode_byte_string(&[253, 255, 255, 255, 255, 255, 255, 255, 255, 1]),
        Err(WireError::Truncated)
    );
    assert_eq!(decode_byte_string(&[255, 1]), Err(WireError::Malformed));
}

#[test]
fn texts_must_be_utf8() {
    assert_eq!(encode_text("hé"), vec![3u8, b'h', 0xC3, 0xA9]);
    assert_eq!(decode_text(&[3, b'h', 0xC3, 0xA9]), Ok(("hé".to_string(), 4)));
    assert_eq!(decode_text(&[2, 0xC3, 0x28]), Err(WireError::Malformed));
    assert_eq!(decode_text(&[2, b'a']), Err(WireError::Truncated));
}

#[test]
fn little_endian_words() {
    let mut out = vec![9u8];
    write_u32_le(&mut out, 0x0102_0304);
    assert_eq!(out, vec![9u8, 4, 3, 2, 1]);
    assert_eq!(read_u32_le(&[4, 3, 2, 1, 0]), Some(0x0102_0304));
    assert_eq!(read_u32_le(&[4, 3, 2]), None);
}

#[test]
fn encodings_agree_with_bincode() {
    let config = bincode::config::standard().with_variable_int_encoding();
    for value in [0u64, 1, 250, 251, 65535, 65536, 4294967295, 4294967296, u64::MAX] {
        assert_eq!(encode_u64(value), bincode::encode_to_vec(value, config).unwrap());
    }
    for value in [0u32, 250, 251, 65535, 65536, u32::MAX] {
        assert_eq!(encode_u32(value), bincode::encode_to_vec(value, config).unwrap());
    }
    let bytes: &[u8] = b"some/path";
    assert_eq!(
        encode_byte_string(bytes),
        bincode::encode_to_vec(bytes, config).unwrap()
    );
    assert_eq!(
        encode_text("some/path"),
        bincode::encode_to_vec("some/path", config).unwrap()
    );
    assert_eq!(encode_bool(true), bincode::encode_to_vec(true, config).unwrap());
}

#[test]
fn same_bytes_compares_contents() {
    assert!(same_bytes(b"abc", b"abc"));
    assert!(!same_bytes(b"abc", b"abd"));
    assert!(!same_bytes(b"abc", b"ab"));
    assert!(same_bytes(b"", b""));
}

#[test]
fn a_marker_is_followed_by_any_value() {
    // values that would fit a shorter form are read all the same
    assert_eq!(decode_u64(&[251, 5, 0]), Ok((5, 3)));
    assert_eq!(decode_u64(&[252, 5, 0, 0, 0]), Ok((5, 5)));
    assert_eq!(decode_u64(&[253, 5, 0, 0, 0, 0, 0, 0, 0]), Ok((5, 9)));
    assert_eq!(decode_u32(&[251, 0, 0]), Ok((0, 3)));
    assert_eq!(decode_u32(&[252, 250, 0, 0, 0]), Ok((250, 5)));
}

#[test]
fn decoding_agrees_with_bincode() {
    let config = bincode::config::standard().with_variable_int_encoding();
    let inputs: [&[u8]; 12] = [
        &[],
        &[0],
        &[250, 1],
        &[251],
        &[251, 1],
        &[251, 1, 2],
        &[252, 1, 2, 3],
        &[252, 1, 2, 3, 4, 5],
        &[253, 1, 2, 3, 4, 5, 6, 7],
        &[253, 1, 2, 3, 4, 5, 6, 7, 8],
        &[254, 1, 2, 3, 4, 5, 6, 7, 8, 9, 10, 11, 12, 13, 14, 15, 16],
        &[255, 0, 0],
    ];
    for input in inputs {
        let wide: Option<(u64, usize)> = bincode::decode_from_slice(input, config).ok();
        assert_eq!(decode_u64(input).ok(), wide);
        let narrow: Option<(u32, usize)> = bincode::decode_from_slice(input, config).ok();
        assert_eq!(decode_u32(input).ok(), narrow);
        let flag: Option<(bool, usize)> = bincode::decode_from_slice(input, config).ok();
        assert_eq!(decode_bool(input).ok(), flag);
    }
    let strings: [&[u8]; 6] = [&[0], &[1, b'a'], &[2, b'a'], &[2, 0xC3, 0xA9, 7], &[1, 0xFF], &[251, 1, 0, b'x']];
    for input in strings {
        let bytes: Option<(Vec<u8>, usize)> = bincode::decode_from_slice(input, config).ok();
        assert_eq!(decode_byte_string(input).ok(), bytes);
        let text: Option<(String, usize)> = bincode::decode_from_slice(input, config).ok();
        assert_eq!(decode_text(input).ok(), text);
    }
}
