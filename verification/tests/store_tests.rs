use creditcoin_authority_manager::chain::Blockchain;
use creditcoin_authority_manager::codec::encode_url;
use creditcoin_authority_manager::error::AdminError;
use creditcoin_authority_manager::store::{get, list_all, OffchainStore};

fn set(
    store: &mut OffchainStore,
    chain: Blockchain,
    url: &str,
) -> Result<(), creditcoin_authority_manager::error::AdminError> {
    creditcoin_authority_manager::store::set(store, chain, url)
}

#[test]
fn set_then_get_returns_the_url() {
    let mut store = OffchainStore::new();
    let url = "ws://rpc.example:8546";
    assert_eq!(set(&mut store, Blockchain::Ethereum, url), Ok(()));
    assert_eq!(get(&store, Blockchain::Ethereum), Ok(Some(url.to_string())));
}

#[test]
fn set_then_get_empty_url() {
    let mut store = OffchainStore::new();
    assert_eq!(set(&mut store, Blockchain::Rinkeby, ""), Ok(()));
    assert_eq!(get(&store, Blockchain::Rinkeby), Ok(Some(String::new())));
}

#[test]
fn set_then_get_non_ascii_url() {
    let mut store = OffchainStore::new();
    let url = "wss://\u{4f8b}\u{3048}.jp:443/\u{1F680}";
    assert_eq!(set(&mut store, Blockchain::Bitcoin, url), Ok(()));
    assert_eq!(get(&store, Blockchain::Bitcoin), Ok(Some(url.to_string())));
}

#[test]
fn get_unset_chain_returns_none() {
    let store = OffchainStore::new();
    assert_eq!(get(&store, Blockchain::Bitcoin), Ok(None));
}

#[test]
fn set_only_touches_its_own_chain() {
    let mut store = OffchainStore::new();
    set(&mut store, Blockchain::Ethereum, "ws://a").unwrap();
    assert_eq!(get(&store, Blockchain::Rinkeby), Ok(None));
    assert_eq!(get(&store, Blockchain::Evm(1)), Ok(None));
}

#[test]
fn set_twice_keeps_the_newest() {
    let mut store = OffchainStore::new();
    set(&mut store, Blockchain::Luniverse, "ws://old").unwrap();
    set(&mut store, Blockchain::Luniverse, "ws://new").unwrap();
    assert_eq!(get(&store, Blockchain::Luniverse), Ok(Some("ws://new".to_string())));
}

#[test]
fn set_on_a_dropping_node_is_a_consistency_violation() {
    let mut store = OffchainStore::new();
    store.drops_writes = true;
    assert_eq!(
        set(&mut store, Blockchain::Ethereum, "ws://a"),
        Err(AdminError::Consistency)
    );
}

#[test]
fn set_on_a_dropping_node_passes_when_the_value_already_matches() {
    let mut store = OffchainStore::new();
    set(&mut store, Blockchain::Ethereum, "ws://a").unwrap();
    store.drops_writes = true;
    // The read-back still observes the very bytes the write claimed to
    // store, so the verification cannot tell the write was dropped.
    assert_eq!(set(&mut store, Blockchain::Ethereum, "ws://a"), Ok(()));
    assert_eq!(
        set(&mut store, Blockchain::Ethereum, "ws://b"),
        Err(AdminError::Consistency)
    );
}

#[test]
fn get_on_malformed_stored_bytes_is_a_decode_error() {
    let mut store = OffchainStore::new();
    store.write(Blockchain::Ethereum.to_key(), vec![0xFF, 0x00]);
    assert_eq!(get(&store, Blockchain::Ethereum), Err(AdminError::Decode));
}

#[test]
fn evm_chains_are_configurable_too() {
    let mut store = OffchainStore::new();
    set(&mut store, Blockchain::Evm(31337), "ws://evm").unwrap();
    assert_eq!(get(&store, Blockchain::Evm(31337)), Ok(Some("ws://evm".to_string())));
    assert_eq!(get(&store, Blockchain::Evm(31338)), Ok(None));
}

#[test]
fn list_two_configured_two_unset() {
    let mut store = OffchainStore::new();
    set(&mut store, Blockchain::Rinkeby, "ws://rink").unwrap();
    set(&mut store, Blockchain::Bitcoin, "ws://btc").unwrap();
    let rows = list_all(&store).unwrap();
    assert_eq!(rows.len(), 4);
    assert_eq!(rows[0].blockchain, Blockchain::Ethereum);
    assert_eq!(rows[0].url, "None");
    assert_eq!(rows[1].blockchain, Blockchain::Rinkeby);
    assert_eq!(rows[1].url, "ws://rink");
    assert_eq!(rows[2].blockchain, Blockchain::Luniverse);
    assert_eq!(rows[2].url, "None");
    assert_eq!(rows[3].blockchain, Blockchain::Bitcoin);
    assert_eq!(rows[3].url, "ws://btc");
}

#[test]
fn list_aborts_whole_listing_on_one_bad_entry() {
    let mut store = OffchainStore::new();
    set(&mut store, Blockchain::Ethereum, "ws://ok").unwrap();
    store.write(Blockchain::Bitcoin.to_key(), vec![0xFF]);
    assert_eq!(list_all(&store).unwrap_err(), AdminError::Decode);
}

#[test]
fn stored_bytes_are_the_encoded_url() {
    let mut store = OffchainStore::new();
    set(&mut store, Blockchain::Ethereum, "ws://a").unwrap();
    let key = Blockchain::Ethereum.to_key();
    let stored = store.read(&key).unwrap();
    assert_eq!(stored, &encode_url("ws://a"));
}
