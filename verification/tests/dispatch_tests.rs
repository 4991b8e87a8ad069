use creditcoin_authority_manager::chain::Blockchain;
use creditcoin_authority_manager::commands::{
    AddLogFilterArgs, CommandOutput, Commands, GetArgs, InsertArgs, LogFilterCommand, Node,
    NonceCommand, ResetArgs, ResetLogFilterArgs, SetArgs, ShowArgs,
};
use creditcoin_authority_manager::error::AdminError;
use creditcoin_authority_manager::nonce::NonceStatus;

const PUB_HEX: &str = "d43593c715fdd31c61141abd04a99fd6822c8558854ccde39a5684e7a56da27d";

#[test]
fn dispatch_set_then_get() {
    let mut node = Node::new();
    let set_cmd = Commands::SetUrl(SetArgs {
        blockchain: Blockchain::Ethereum,
        rpc_url: "ws://a".to_string(),
    });
    match set_cmd.run_against(&mut node).unwrap() {
        CommandOutput::UrlSet(chain, url) => {
            assert_eq!(chain, Blockchain::Ethereum);
            assert_eq!(url, "ws://a");
        }
        other => panic!("unexpected output {:?}", other),
    }
    let get_cmd = Commands::Get(GetArgs { blockchain: Blockchain::Ethereum });
    match get_cmd.run_against(&mut node).unwrap() {
        CommandOutput::ConfiguredUrl(u) => assert_eq!(u.as_deref(), Some("ws://a")),
        other => panic!("unexpected output {:?}", other),
    }
}

#[test]
fn dispatch_get_unset_is_none() {
    let mut node = Node::new();
    let cmd = Commands::Get(GetArgs { blockchain: Blockchain::Luniverse });
    match cmd.run_against(&mut node).unwrap() {
        CommandOutput::ConfiguredUrl(u) => assert!(u.is_none()),
        other => panic!("unexpected output {:?}", other),
    }
}

#[test]
fn dispatch_insert_reports_the_inserted_key() {
    let mut node = Node::new();
    let cmd = Commands::Insert(InsertArgs {
        suri: "//Alice".to_string(),
        public_hex: PUB_HEX.to_string(),
    });
    match cmd.run_against(&mut node).unwrap() {
        CommandOutput::KeyInserted(hex) => assert_eq!(hex, PUB_HEX),
        other => panic!("unexpected output {:?}", other),
    }
    assert_eq!(node.keystore.keys.len(), 1);
}

#[test]
fn dispatch_insert_on_a_lying_node_fails_with_consistency_violation() {
    let mut node = Node::new();
    node.keystore.drops_inserts = true;
    let cmd = Commands::Insert(InsertArgs {
        suri: "//Alice".to_string(),
        public_hex: PUB_HEX.to_string(),
    });
    assert_eq!(cmd.run_against(&mut node).unwrap_err(), AdminError::Consistency);
}

#[test]
fn dispatch_insert_bad_hex_is_a_parse_error() {
    let mut node = Node::new();
    let cmd = Commands::Insert(InsertArgs {
        suri: "//Alice".to_string(),
        public_hex: "xyz".to_string(),
    });
    assert_eq!(cmd.run_against(&mut node).unwrap_err(), AdminError::Parse);
    assert_eq!(node.keystore.queries, 0);
}

#[test]
fn dispatch_account_finds_the_authority() {
    let mut node = Node::new();
    let mut entry = vec![0xAB; 10];
    entry.extend_from_slice(&[0xD4; 32]);
    node.authorities.push(entry);
    let insert_cmd = Commands::Insert(InsertArgs {
        suri: "//Alice".to_string(),
        public_hex: "d4".repeat(32),
    });
    insert_cmd.run_against(&mut node).unwrap();
    match Commands::Account.run_against(&mut node).unwrap() {
        CommandOutput::Authority(Some(acct)) => assert_eq!(acct.bytes, vec![0xD4; 32]),
        other => panic!("unexpected output {:?}", other),
    }
}

#[test]
fn dispatch_account_with_empty_registry_finds_none() {
    let mut node = Node::new();
    match Commands::Account.run_against(&mut node).unwrap() {
        CommandOutput::Authority(a) => assert!(a.is_none()),
        other => panic!("unexpected output {:?}", other),
    }
}

#[test]
fn dispatch_list_preserves_order_and_markers() {
    let mut node = Node::new();
    Commands::SetUrl(SetArgs {
        blockchain: Blockchain::Ethereum,
        rpc_url: "ws://eth".to_string(),
    })
    .run_against(&mut node)
    .unwrap();
    Commands::SetUrl(SetArgs {
        blockchain: Blockchain::Bitcoin,
        rpc_url: "ws://btc".to_string(),
    })
    .run_against(&mut node)
    .unwrap();
    match Commands::List.run_against(&mut node).unwrap() {
        CommandOutput::Listing(rows) => {
            assert_eq!(rows.len(), 4);
            let texts: Vec<(Blockchain, &str)> =
                rows.iter().map(|r| (r.blockchain, r.url.as_str())).collect();
            assert_eq!(
                texts,
                vec![
                    (Blockchain::Ethereum, "ws://eth"),
                    (Blockchain::Rinkeby, "None"),
                    (Blockchain::Luniverse, "None"),
                    (Blockchain::Bitcoin, "ws://btc"),
                ]
            );
        }
        other => panic!("unexpected output {:?}", other),
    }
}

#[test]
fn dispatch_log_filter_add_and_reset() {
    let mut node = Node::new();
    let add = Commands::LogFilter(LogFilterCommand::Add(AddLogFilterArgs {
        filter: "task=debug".to_string(),
    }));
    match add.run_against(&mut node).unwrap() {
        CommandOutput::FilterAdded(f) => assert_eq!(f, "task=debug"),
        other => panic!("unexpected output {:?}", other),
    }
    assert_eq!(node.log_filters.directives.len(), 1);
    let reset = Commands::LogFilter(LogFilterCommand::Reset(ResetLogFilterArgs));
    match reset.run_against(&mut node).unwrap() {
        CommandOutput::FilterReset => {}
        other => panic!("unexpected output {:?}", other),
    }
    assert_eq!(node.log_filters.directives.len(), 0);
}

#[test]
fn dispatch_nonce_reset_then_show() {
    let mut node = Node::new();
    node.nonce_keys.entries.push(("5Alice".to_string(), vec![1, 2, 3]));
    node.store.write(vec![1, 2, 3], vec![9, 0, 0, 0]);
    let show = Commands::Nonce(NonceCommand::Show(ShowArgs {
        public_hex: "5Alice".to_string(),
    }));
    match show.clone().run_against(&mut node).unwrap() {
        CommandOutput::NonceStatusFor(st, acc) => {
            assert_eq!(st, NonceStatus::Recorded(9));
            assert_eq!(acc, "5Alice");
        }
        other => panic!("unexpected output {:?}", other),
    }
    let reset = Commands::Nonce(NonceCommand::Reset(ResetArgs {
        public_hex: "5Alice".to_string(),
    }));
    match reset.run_against(&mut node).unwrap() {
        CommandOutput::NonceCleared(acc) => assert_eq!(acc, "5Alice"),
        other => panic!("unexpected output {:?}", other),
    }
    match show.run_against(&mut node).unwrap() {
        CommandOutput::NonceStatusFor(st, _) => assert_eq!(st, NonceStatus::NotRecorded),
        other => panic!("unexpected output {:?}", other),
    }
}

#[test]
fn dispatch_nonce_for_unknown_account_is_a_transport_error() {
    let mut node = Node::new();
    let show = Commands::Nonce(NonceCommand::Show(ShowArgs {
        public_hex: "5Nobody".to_string(),
    }));
    assert_eq!(show.run_against(&mut node).unwrap_err(), AdminError::Transport);
}
