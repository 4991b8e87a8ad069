use creditcoin_authority_manager::error::AdminError;
use creditcoin_authority_manager::hexstr::decode_hex;

#[test]
fn decode_hex_bare_and_prefixed() {
    assert_eq!(decode_hex("0a0b"), Ok(vec![0x0A, 0x0B]));
    assert_eq!(decode_hex("0x0a0b"), Ok(vec![0x0A, 0x0B]));
    assert_eq!(decode_hex("deadBEEF"), Ok(vec![0xDE, 0xAD, 0xBE, 0xEF]));
    assert_eq!(decode_hex("0xDEADbeef"), Ok(vec![0xDE, 0xAD, 0xBE, 0xEF]));
}

#[test]
fn decode_hex_empty_forms() {
    assert_eq!(decode_hex(""), Ok(vec![]));
    assert_eq!(decode_hex("0x"), Ok(vec![]));
}

#[test]
fn decode_hex_rejects_odd_length() {
    assert_eq!(decode_hex("abc"), Err(AdminError::Parse));
    assert_eq!(decode_hex("0xabc"), Err(AdminError::Parse));
    assert_eq!(decode_hex("a"), Err(AdminError::Parse));
}

#[test]
fn decode_hex_rejects_non_hex_characters() {
    assert_eq!(decode_hex("zz"), Err(AdminError::Parse));
    assert_eq!(decode_hex("0xzz"), Err(AdminError::Parse));
    assert_eq!(decode_hex("0g"), Err(AdminError::Parse));
    assert_eq!(decode_hex("12 4"), Err(AdminError::Parse));
    // An upper-case `0X` is not the accepted prefix, and `X` is not hex.
    assert_eq!(decode_hex("0X12"), Err(AdminError::Parse));
}

#[test]
fn decode_hex_matches_hex_crate() {
    for s in ["", "00", "0a0b", "deadbeef", "DEADBEEF", "0123456789abcdefABCDEF00"] {
        assert_eq!(decode_hex(s), Ok(hex::decode(s).unwrap()), "input {:?}", s);
    }
    for bad in ["abc", "zz", "0g"] {
        assert!(hex::decode(bad).is_err());
        assert_eq!(decode_hex(bad), Err(AdminError::Parse));
    }
}

#[test]
fn decode_hex_full_public_key() {
    let hex32 = "d43593c715fdd31c61141abd04a99fd6822c8558854ccde39a5684e7a56da27d";
    let bytes = decode_hex(hex32).unwrap();
    assert_eq!(bytes.len(), 32);
    assert_eq!(bytes, hex::decode(hex32).unwrap());
    let mut prefixed = String::from("0x");
    prefixed.push_str(hex32);
    assert_eq!(decode_hex(&prefixed).unwrap(), bytes);
}
