use creditcoin_authority_manager::authority::{authority_account, decode_account, AccountId};
use creditcoin_authority_manager::error::AdminError;
use creditcoin_authority_manager::keystore::{auth_key_tag, insert, Keystore};

/// A registry entry: some map-prefix bytes followed by the 32 account bytes.
fn entry_for(account_byte: u8) -> Vec<u8> {
    let mut e = vec![0xAA; 8];
    e.extend_from_slice(&[account_byte; 32]);
    e
}

fn hex_of(account_byte: u8) -> String {
    let mut s = String::new();
    for _ in 0..32 {
        s.push_str(&format!("{:02x}", account_byte));
    }
    s
}

#[test]
fn scan_finds_the_held_account_and_stops_there() {
    let entries = vec![entry_for(1), entry_for(2), entry_for(3), entry_for(4)];
    let mut ks = Keystore::new();
    insert(&mut ks, "//Alice", &hex_of(2), auth_key_tag()).unwrap();
    ks.queries = 0;
    let found = authority_account(&entries, &mut ks, auth_key_tag()).unwrap();
    assert_eq!(found, Some(AccountId { bytes: vec![2u8; 32] }));
    // One query per entry up to and including the match, none after it.
    assert_eq!(ks.queries, 2);
}

#[test]
fn scan_with_no_match_exhausts_all_entries() {
    let entries = vec![entry_for(1), entry_for(2), entry_for(3)];
    let mut ks = Keystore::new();
    let found = authority_account(&entries, &mut ks, auth_key_tag()).unwrap();
    assert_eq!(found, None);
    assert_eq!(ks.queries, 3);
}

#[test]
fn scan_of_an_empty_registry_finds_nothing() {
    let entries: Vec<Vec<u8>> = vec![];
    let mut ks = Keystore::new();
    assert_eq!(authority_account(&entries, &mut ks, auth_key_tag()).unwrap(), None);
    assert_eq!(ks.queries, 0);
}

#[test]
fn scan_fails_fast_on_a_malformed_entry() {
    let entries = vec![entry_for(1), vec![0u8; 31]];
    let mut ks = Keystore::new();
    assert_eq!(
        authority_account(&entries, &mut ks, auth_key_tag()),
        Err(AdminError::Decode)
    );
}

#[test]
fn scan_respects_the_key_type_tag() {
    let entries = vec![entry_for(7)];
    let mut ks = Keystore::new();
    insert(&mut ks, "//Alice", &hex_of(7), "ctcs").unwrap();
    ks.queries = 0;
    assert_eq!(authority_account(&entries, &mut ks, auth_key_tag()).unwrap(), None);
}

#[test]
fn decode_account_takes_the_trailing_bytes() {
    let mut e = vec![9u8; 5];
    let mut expected = Vec::new();
    for i in 0..32u8 {
        e.push(i);
        expected.push(i);
    }
    assert_eq!(decode_account(&e).unwrap().bytes, expected);
}

#[test]
fn decode_account_accepts_exactly_32_bytes() {
    let e = vec![3u8; 32];
    assert_eq!(decode_account(&e).unwrap().bytes, e);
}

#[test]
fn decode_account_rejects_short_entries() {
    assert_eq!(decode_account(&vec![0u8; 31]), Err(AdminError::Decode));
    assert_eq!(decode_account(&Vec::new()), Err(AdminError::Decode));
}
