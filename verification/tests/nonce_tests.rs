use creditcoin_authority_manager::error::AdminError;
use creditcoin_authority_manager::nonce::{
    offchain_nonce, offchain_nonce_key, reset_nonce, NonceRegistry, NonceStatus,
};
use creditcoin_authority_manager::store::OffchainStore;

fn registry_with(account: &str, key: &[u8]) -> NonceRegistry {
    let mut reg = NonceRegistry::new();
    reg.entries.push((account.to_string(), key.to_vec()));
    reg
}

#[test]
fn nonce_key_resolves_known_accounts() {
    let reg = registry_with("5Alice", &[1, 2, 3]);
    assert_eq!(offchain_nonce_key(&reg, "5Alice"), Ok(vec![1, 2, 3]));
}

#[test]
fn nonce_key_fails_for_unknown_accounts() {
    let reg = registry_with("5Alice", &[1, 2, 3]);
    assert_eq!(offchain_nonce_key(&reg, "5Bob"), Err(AdminError::Transport));
}

#[test]
fn show_reports_the_recorded_nonce() {
    let reg = registry_with("5Alice", &[1, 2, 3]);
    let mut store = OffchainStore::new();
    store.write(vec![1, 2, 3], vec![5, 0, 0, 0]);
    assert_eq!(
        offchain_nonce(&reg, &store, "5Alice"),
        Ok(NonceStatus::Recorded(5))
    );
}

#[test]
fn show_reports_absence_distinctly() {
    let reg = registry_with("5Alice", &[1, 2, 3]);
    let store = OffchainStore::new();
    assert_eq!(
        offchain_nonce(&reg, &store, "5Alice"),
        Ok(NonceStatus::NotRecorded)
    );
}

#[test]
fn show_reports_malformed_values_distinctly() {
    let reg = registry_with("5Alice", &[1, 2, 3]);
    let mut store = OffchainStore::new();
    store.write(vec![1, 2, 3], vec![9]);
    assert_eq!(
        offchain_nonce(&reg, &store, "5Alice"),
        Ok(NonceStatus::Malformed)
    );
}

#[test]
fn reset_writes_the_empty_value_at_the_resolved_key() {
    let reg = registry_with("5Alice", &[1, 2, 3]);
    let mut store = OffchainStore::new();
    store.write(vec![1, 2, 3], vec![5, 0, 0, 0]);
    assert_eq!(reset_nonce(&reg, &mut store, "5Alice"), Ok(()));
    let stored = store.read(&vec![1, 2, 3]).unwrap();
    assert_eq!(stored.len(), 0);
}

#[test]
fn reset_then_show_reports_no_nonce_recorded() {
    let reg = registry_with("5Alice", &[1, 2, 3]);
    let mut store = OffchainStore::new();
    store.write(vec![1, 2, 3], vec![7, 0, 0, 0]);
    reset_nonce(&reg, &mut store, "5Alice").unwrap();
    assert_eq!(
        offchain_nonce(&reg, &store, "5Alice"),
        Ok(NonceStatus::NotRecorded)
    );
}

#[test]
fn reset_for_an_unknown_account_is_a_transport_error() {
    let reg = registry_with("5Alice", &[1, 2, 3]);
    let mut store = OffchainStore::new();
    assert_eq!(
        reset_nonce(&reg, &mut store, "5Bob"),
        Err(AdminError::Transport)
    );
}

#[test]
fn reset_performs_no_verification_read() {
    // Deliberate asymmetry with the URL and keystore mutators: a node that
    // drops the write is not caught here.
    let reg = registry_with("5Alice", &[1, 2, 3]);
    let mut store = OffchainStore::new();
    store.drops_writes = true;
    assert_eq!(reset_nonce(&reg, &mut store, "5Alice"), Ok(()));
}
