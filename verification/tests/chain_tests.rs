use creditcoin_authority_manager::chain::Blockchain;
use creditcoin_authority_manager::error::AdminError;

#[test]
fn round_trip_named_chains() {
    for chain in [
        Blockchain::Ethereum,
        Blockchain::Rinkeby,
        Blockchain::Luniverse,
        Blockchain::Bitcoin,
    ] {
        let text = chain.to_text();
        assert_eq!(Blockchain::parse(&text), Ok(chain));
    }
}

#[test]
fn round_trip_evm_boundaries() {
    for id in [0u64, 1, 7, 999, u64::MAX] {
        let chain = Blockchain::Evm(id);
        let text = chain.to_text();
        assert_eq!(Blockchain::parse(&text), Ok(chain));
    }
}

#[test]
fn to_text_values() {
    assert_eq!(Blockchain::Ethereum.to_text(), "Ethereum");
    assert_eq!(Blockchain::Rinkeby.to_text(), "Rinkeby");
    assert_eq!(Blockchain::Luniverse.to_text(), "Luniverse");
    assert_eq!(Blockchain::Bitcoin.to_text(), "Bitcoin");
    assert_eq!(Blockchain::Evm(12345).to_text(), "evm-12345");
    assert_eq!(Blockchain::Evm(0).to_text(), "evm-0");
    assert_eq!(
        Blockchain::Evm(u64::MAX).to_text(),
        "evm-18446744073709551615"
    );
}

#[test]
fn parse_is_case_insensitive() {
    assert_eq!(Blockchain::parse("ETHEREUM"), Ok(Blockchain::Ethereum));
    assert_eq!(Blockchain::parse("ethereum"), Ok(Blockchain::Ethereum));
    assert_eq!(Blockchain::parse("rInKeBy"), Ok(Blockchain::Rinkeby));
    assert_eq!(Blockchain::parse("LUNIVERSE"), Ok(Blockchain::Luniverse));
    assert_eq!(Blockchain::parse("Bitcoin"), Ok(Blockchain::Bitcoin));
    assert_eq!(Blockchain::parse("EVM-5"), Ok(Blockchain::Evm(5)));
    assert_eq!(Blockchain::parse("Evm-42"), Ok(Blockchain::Evm(42)));
}

#[test]
fn parse_accepts_leading_zero_digits() {
    assert_eq!(Blockchain::parse("evm-007"), Ok(Blockchain::Evm(7)));
    assert_eq!(Blockchain::parse("evm-000"), Ok(Blockchain::Evm(0)));
}

#[test]
fn parse_rejections() {
    for bad in [
        "",
        "evm-",
        "evm-x",
        "evm-12x",
        "evm-18446744073709551616",
        "dogecoin",
        "ethereum ",
        " ethereum",
        "evm—5",
    ] {
        assert_eq!(Blockchain::parse(bad), Err(AdminError::Parse), "input {:?}", bad);
    }
}

#[test]
fn storage_key_values() {
    assert_eq!(Blockchain::Ethereum.to_key(), b"ethereum-rpc-uri".to_vec());
    assert_eq!(Blockchain::Rinkeby.to_key(), b"rinkeby-rpc-uri".to_vec());
    assert_eq!(Blockchain::Luniverse.to_key(), b"luniverse-rpc-uri".to_vec());
    assert_eq!(Blockchain::Bitcoin.to_key(), b"bitcoin-rpc-uri".to_vec());
    assert_eq!(Blockchain::Evm(7).to_key(), b"evm-7-rpc-uri".to_vec());
}

#[test]
fn storage_keys_are_deterministic_and_distinct() {
    let chains = [
        Blockchain::Ethereum,
        Blockchain::Rinkeby,
        Blockchain::Luniverse,
        Blockchain::Bitcoin,
    ];
    for a in chains {
        assert_eq!(a.to_key(), a.to_key());
        for b in chains {
            if a != b {
                assert_ne!(a.to_key(), b.to_key());
            }
        }
    }
}
