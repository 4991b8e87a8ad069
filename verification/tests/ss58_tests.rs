use creditcoin_authority_manager::authority::AccountId;

#[test]
fn ss58_matches_the_transport_library_rendering() {
    for fill in [0u8, 1, 0xD4, 0xFF] {
        let account = AccountId { bytes: vec![fill; 32] };
        let text = account.to_ss58check();
        let oracle = subxt::utils::AccountId32([fill; 32]).to_string();
        assert_eq!(text, oracle);
    }
}

#[test]
fn ss58_is_a_checksummed_base58_text() {
    let account = AccountId { bytes: vec![0u8; 32] };
    let text = account.to_ss58check();
    // Substrate-prefix addresses are around 48 base58 characters starting
    // with '5'; in particular the rendering is not the raw bytes.
    assert!(text.len() >= 40);
    assert!(text.starts_with('5'));
    assert!(text.chars().all(|c| c.is_ascii_alphanumeric()));
}

#[test]
fn ss58_distinguishes_accounts() {
    let a = AccountId { bytes: vec![1u8; 32] };
    let b = AccountId { bytes: vec![2u8; 32] };
    assert_ne!(a.to_ss58check(), b.to_ss58check());
}
