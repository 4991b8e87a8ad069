use creditcoin_authority_manager::codec::{decode_u32, decode_url, encode_url, url_to_value};
use creditcoin_authority_manager::error::AdminError;
use parity_scale_codec::Encode;

#[test]
fn encode_url_empty_string() {
    assert_eq!(encode_url(""), vec![0u8]);
}

#[test]
fn encode_url_short_string() {
    let mut expected = vec![5u8 << 2];
    expected.extend_from_slice(b"hello");
    assert_eq!(encode_url("hello"), expected);
}

#[test]
fn encode_url_non_ascii() {
    assert_eq!(encode_url("\u{e9}"), vec![2u8 << 2, 0xC3, 0xA9]);
}

#[test]
fn url_to_value_is_the_stored_form() {
    assert_eq!(url_to_value("ws://x"), encode_url("ws://x"));
}

#[test]
fn encode_url_matches_scale_codec() {
    for s in [
        "",
        "h",
        "hello",
        "ws://127.0.0.1:9944",
        "h\u{e9}llo w\u{f6}rld \u{1F600}",
        &"a".repeat(63),
        &"a".repeat(64),
        &"b".repeat(100),
        &"c".repeat(16383),
        &"c".repeat(16384),
        &"d".repeat(20000),
    ] {
        assert_eq!(encode_url(s), s.encode(), "string of len {}", s.len());
    }
}

#[test]
fn decode_url_round_trip() {
    for s in [
        "",
        "hello",
        "ws://127.0.0.1:9944",
        "h\u{e9}llo w\u{f6}rld \u{1F600}",
        &"x".repeat(100),
        &"y".repeat(20000),
    ] {
        assert_eq!(decode_url(&encode_url(s)).as_deref(), Ok(s));
    }
}

#[test]
fn decode_url_rejections() {
    // No bytes at all: no length prefix.
    assert_eq!(decode_url(&[]), Err(AdminError::Decode));
    // Two-byte prefix form cut short.
    assert_eq!(decode_url(&[1]), Err(AdminError::Decode));
    // Prefix says two bytes, one present.
    assert_eq!(decode_url(&[8, b'a']), Err(AdminError::Decode));
    // Prefix says one byte, two present (trailing bytes are inconsistent).
    assert_eq!(decode_url(&[4, b'a', b'b']), Err(AdminError::Decode));
    // Payload is not UTF-8.
    assert_eq!(decode_url(&[8, 0xFF, 0xFE]), Err(AdminError::Decode));
    // Non-canonical length prefix: the two-byte form carrying a value
    // that belongs in the one-byte form.
    assert_eq!(decode_url(&[1, 0]), Err(AdminError::Decode));
}

#[test]
fn decode_url_accepts_one_byte_payload() {
    assert_eq!(decode_url(&[4, b'a']).as_deref(), Ok("a"));
}

#[test]
fn decode_u32_values() {
    assert_eq!(decode_u32(&[5, 0, 0, 0]), Ok(5));
    assert_eq!(decode_u32(&[0x78, 0x56, 0x34, 0x12]), Ok(0x1234_5678));
    assert_eq!(decode_u32(&[0, 0, 0, 0]), Ok(0));
    assert_eq!(decode_u32(&[0xFF, 0xFF, 0xFF, 0xFF]), Ok(u32::MAX));
}

#[test]
fn decode_u32_rejects_wrong_lengths() {
    assert_eq!(decode_u32(&[]), Err(AdminError::Decode));
    assert_eq!(decode_u32(&[1, 2, 3]), Err(AdminError::Decode));
    assert_eq!(decode_u32(&[1, 2, 3, 4, 5]), Err(AdminError::Decode));
}

#[test]
fn decode_u32_matches_scale_codec() {
    for v in [0u32, 1, 5, 0x1234_5678, u32::MAX] {
        assert_eq!(decode_u32(&v.encode()), Ok(v));
    }
}
