//! The command set and its one-shot dispatcher.
//!
//! A parsed command maps to exactly one operation against the node; the
//! dispatcher performs it and reports the single success or failure.  The
//! command set is closed, so dispatch is one exhaustive match.

use vstd::prelude::*;
use crate::authority::{authority_account, entries_bytes, spec_scan, spec_scan_queries, AccountId};
use crate::chain::{spec_chain_key, Blockchain};
use crate::codec::spec_encode_url;
use crate::error::AdminError;
use crate::hexstr::{spec_hex_bytes, spec_hex_ok, strip_0x};
use crate::keystore::{auth_key_tag, insert, keys_view, spec_holds, Keystore};
use crate::logfilter::{add_log_filter, directives_view, reset_log_filter, LogFilters};
use crate::nonce::{offchain_nonce, registry_view, reset_nonce, spec_lookup, spec_show_nonce,
    NonceRegistry, NonceStatus};
use crate::store::{get, list_all, spec_all_chains, spec_get, spec_list_row, OffchainStore,
    RpcConfig};

verus! {

/// Arguments of `get`: which chain to read the configured RPC URL for.
#[derive(Clone, Debug)]
pub struct GetArgs {
    pub blockchain: Blockchain,
}

/// Arguments of `set`: the chain and the RPC URL to configure for it.
#[derive(Clone, Debug)]
pub struct SetArgs {
    pub blockchain: Blockchain,
    pub rpc_url: String,
}

/// Arguments of `insert`: the mnemonic phrase and the hex-encoded public
/// key of the authority key to insert.
#[derive(Clone, Debug)]
pub struct InsertArgs {
    pub suri: String,
    pub public_hex: String,
}

/// Arguments of `log-filter add`: the directive to add.
#[derive(Clone, Debug)]
pub struct AddLogFilterArgs {
    pub filter: String,
}

/// Arguments of `log-filter reset`: none.
#[derive(Clone, Debug)]
pub struct ResetLogFilterArgs;

/// Operations on the node's log filter.
#[derive(Clone, Debug)]
pub enum LogFilterCommand {
    Add(AddLogFilterArgs),
    Reset(ResetLogFilterArgs),
}

/// Arguments of `nonce reset`: a hex public key or checksummed address.
#[derive(Clone, Debug)]
pub struct ResetArgs {
    pub public_hex: String,
}

/// Arguments of `nonce show`: a hex public key or checksummed address.
#[derive(Clone, Debug)]
pub struct ShowArgs {
    pub public_hex: String,
}

/// Offchain nonce directives.
#[derive(Clone, Debug)]
pub enum NonceCommand {
    Reset(ResetArgs),
    Show(ShowArgs),
}

/// One administrative command, exactly one of which runs per invocation.
#[derive(Clone, Debug)]
pub enum Commands {
    /// Get the currently configured RPC URL for a given blockchain.
    Get(GetArgs),
    /// Set the RPC URL to use for a given blockchain.
    SetUrl(SetArgs),
    /// Insert an authority key into the keystore.
    Insert(InsertArgs),
    /// Operations on log filters.
    LogFilter(LogFilterCommand),
    /// Retrieve the account of the authority, if one exists.
    Account,
    /// List the configured RPC URLs for all enumerated blockchains.
    List,
    /// Offchain nonce directives.
    Nonce(NonceCommand),
}

/// The remote node as the dispatcher sees it: the persistent offchain
/// store, the keystore, the authorities registry, the nonce-key directory
/// and the log-filter state, each modelled explicitly.
pub struct Node {
    pub store: OffchainStore,
    pub keystore: Keystore,
    /// Raw keys of the remote authorities storage map.
    pub authorities: Vec<Vec<u8>>,
    pub nonce_keys: NonceRegistry,
    pub log_filters: LogFilters,
}

impl Node {
    /// A fresh honest node with empty state.
    pub fn new() -> (r: Self)
        ensures
            r.store.view_map() == Map::<Seq<u8>, Seq<u8>>::empty(),
            !r.store.drops_writes,
            r.keystore.keys@.len() == 0,
            !r.keystore.drops_inserts,
            r.keystore.queries == 0,
            r.authorities@.len() == 0,
            r.nonce_keys.entries@.len() == 0,
            directives_view(r.log_filters.directives@) == Seq::<Seq<char>>::empty(),
    {
        Node {
            store: OffchainStore::new(),
            keystore: Keystore::new(),
            authorities: Vec::new(),
            nonce_keys: NonceRegistry::new(),
            log_filters: LogFilters::new(),
        }
    }
}

/// What a successfully executed command reports, ready for rendering.
#[derive(Clone, Debug)]
pub enum CommandOutput {
    /// The URL configured for the queried chain, or `None`.
    ConfiguredUrl(Option<String>),
    /// The chain and URL that were configured and verified.
    UrlSet(Blockchain, String),
    /// The hex text of the key that was inserted and verified.
    KeyInserted(String),
    /// The authority account the keystore holds a key for, if any.
    Authority(Option<AccountId>),
    /// One row per enumerated chain, in order.
    Listing(Vec<RpcConfig>),
    /// The directive that was added.
    FilterAdded(String),
    /// The filter was reset to default.
    FilterReset,
    /// The account reference whose nonce slot was cleared.
    NonceCleared(String),
    /// The nonce status of the account reference.
    NonceStatusFor(NonceStatus, String),
}

/// The character view of an optional string.
pub open spec fn view_opt(u: Option<String>) -> Option<Seq<char>> {
    match u {
        Some(s) => Some(s@),
        None => None,
    }
}

impl Commands {
    /// Runs the command against the node: exactly one operation, one
    /// result.  Success and failure, and every change to the node, follow
    /// the contract of the one operation the command names.
    pub fn run_against(self, node: &mut Node) -> (r: Result<CommandOutput, AdminError>)
        requires
            old(node).keystore.queries + old(node).authorities@.len() < u64::MAX,
        ensures
            (match self {
                Commands::Get(args) => {
                    &&& *final(node) == *old(node)
                    &&& (match r {
                        Ok(out) => (match out {
                            CommandOutput::ConfiguredUrl(u) => spec_get(
                                old(node).store.view_map(),
                                args.blockchain,
                            ) == Ok::<Option<Seq<char>>, AdminError>(view_opt(u)),
                            _ => false,
                        }),
                        Err(e) => spec_get(old(node).store.view_map(), args.blockchain) == Err::<
                            Option<Seq<char>>,
                            AdminError,
                        >(e),
                    })
                },
                Commands::SetUrl(args) => {
                    &&& final(node).keystore == old(node).keystore
                    &&& final(node).authorities == old(node).authorities
                    &&& final(node).nonce_keys == old(node).nonce_keys
                    &&& final(node).log_filters == old(node).log_filters
                    &&& final(node).store.drops_writes == old(node).store.drops_writes
                    &&& final(node).store.view_map() == if old(node).store.drops_writes {
                        old(node).store.view_map()
                    } else {
                        old(node).store.view_map().insert(
                            spec_chain_key(args.blockchain),
                            spec_encode_url(args.rpc_url@),
                        )
                    }
                    &&& (r is Ok <==> final(node).store.view_map().contains_key(
                        spec_chain_key(args.blockchain),
                    ) && final(node).store.view_map()[spec_chain_key(args.blockchain)]
                        == spec_encode_url(args.rpc_url@))
                    &&& (r is Ok ==> r == Ok::<CommandOutput, AdminError>(
                        CommandOutput::UrlSet(args.blockchain, args.rpc_url),
                    ))
                    &&& (r is Err ==> r == Err::<CommandOutput, AdminError>(
                        AdminError::Consistency,
                    ))
                },
                Commands::Insert(args) => {
                    &&& final(node).store == old(node).store
                    &&& final(node).authorities == old(node).authorities
                    &&& final(node).nonce_keys == old(node).nonce_keys
                    &&& final(node).log_filters == old(node).log_filters
                    &&& (!spec_hex_ok(args.public_hex@) ==> final(node).keystore == old(
                        node,
                    ).keystore && r == Err::<CommandOutput, AdminError>(AdminError::Parse))
                    &&& (spec_hex_ok(args.public_hex@) ==> {
                        let pk = spec_hex_bytes(strip_0x(args.public_hex@));
                        &&& final(node).keystore.queries == old(node).keystore.queries + 1
                        &&& final(node).keystore.drops_inserts == old(
                            node,
                        ).keystore.drops_inserts
                        &&& keys_view(final(node).keystore.keys@) == if old(
                            node,
                        ).keystore.drops_inserts {
                            keys_view(old(node).keystore.keys@)
                        } else {
                            keys_view(old(node).keystore.keys@).push(("gots"@, pk))
                        }
                        &&& (r is Ok <==> spec_holds(
                            keys_view(final(node).keystore.keys@),
                            "gots"@,
                            pk,
                        ))
                        &&& (r is Ok ==> r == Ok::<CommandOutput, AdminError>(
                            CommandOutput::KeyInserted(args.public_hex),
                        ))
                        &&& (r is Err ==> r == Err::<CommandOutput, AdminError>(
                            AdminError::Consistency,
                        ))
                        &&& (!old(node).keystore.drops_inserts ==> r is Ok)
                    })
                },
                Commands::Account => {
                    &&& final(node).store == old(node).store
                    &&& final(node).authorities == old(node).authorities
                    &&& final(node).nonce_keys == old(node).nonce_keys
                    &&& final(node).log_filters == old(node).log_filters
                    &&& final(node).keystore.keys == old(node).keystore.keys
                    &&& final(node).keystore.drops_inserts == old(node).keystore.drops_inserts
                    &&& final(node).keystore.queries == old(node).keystore.queries
                        + spec_scan_queries(
                        entries_bytes(old(node).authorities@),
                        keys_view(old(node).keystore.keys@),
                        "gots"@,
                    )
                    &&& (match r {
                        Ok(out) => (match out {
                            CommandOutput::Authority(a) => (match a {
                                Some(acct) => acct.wf() && spec_scan(
                                    entries_bytes(old(node).authorities@),
                                    keys_view(old(node).keystore.keys@),
                                    "gots"@,
                                ) == Ok::<Option<Seq<u8>>, AdminError>(Some(acct.bytes@)),
                                None => spec_scan(
                                    entries_bytes(old(node).authorities@),
                                    keys_view(old(node).keystore.keys@),
                                    "gots"@,
                                ) == Ok::<Option<Seq<u8>>, AdminError>(None),
                            }),
                            _ => false,
                        }),
                        Err(e) => spec_scan(
                            entries_bytes(old(node).authorities@),
                            keys_view(old(node).keystore.keys@),
                            "gots"@,
                        ) == Err::<Option<Seq<u8>>, AdminError>(e),
                    })
                },
                Commands::List => {
                    &&& *final(node) == *old(node)
                    &&& (match r {
                        Ok(out) => (match out {
                            CommandOutput::Listing(rows) => {
                                &&& rows@.len() == 4
                                &&& forall|i: int|
                                    0 <= i < 4 ==> (#[trigger] rows@[i]).blockchain
                                        == spec_all_chains()[i]
                                &&& forall|i: int|
                                    0 <= i < 4 ==> spec_list_row(
                                        old(node).store.view_map(),
                                        spec_all_chains()[i],
                                    ) == Ok::<Seq<char>, AdminError>((#[trigger] rows@[i]).url@)
                            },
                            _ => false,
                        }),
                        Err(e) => exists|i: int|
                            0 <= i < 4 && spec_list_row(
                                old(node).store.view_map(),
                                #[trigger] spec_all_chains()[i],
                            ) == Err::<Seq<char>, AdminError>(e),
                    })
                },
                Commands::LogFilter(cmd) => (match cmd {
                    LogFilterCommand::Add(args) => {
                        &&& final(node).store == old(node).store
                        &&& final(node).keystore == old(node).keystore
                        &&& final(node).authorities == old(node).authorities
                        &&& final(node).nonce_keys == old(node).nonce_keys
                        &&& directives_view(final(node).log_filters.directives@)
                            == directives_view(old(node).log_filters.directives@).push(
                            args.filter@,
                        )
                        &&& r == Ok::<CommandOutput, AdminError>(
                            CommandOutput::FilterAdded(args.filter),
                        )
                    },
                    LogFilterCommand::Reset(_) => {
                        &&& final(node).store == old(node).store
                        &&& final(node).keystore == old(node).keystore
                        &&& final(node).authorities == old(node).authorities
                        &&& final(node).nonce_keys == old(node).nonce_keys
                        &&& directives_view(final(node).log_filters.directives@) == Seq::<
                            Seq<char>,
                        >::empty()
                        &&& r == Ok::<CommandOutput, AdminError>(CommandOutput::FilterReset)
                    },
                }),
                Commands::Nonce(cmd) => (match cmd {
                    NonceCommand::Reset(args) => {
                        &&& final(node).keystore == old(node).keystore
                        &&& final(node).authorities == old(node).authorities
                        &&& final(node).nonce_keys == old(node).nonce_keys
                        &&& final(node).log_filters == old(node).log_filters
                        &&& final(node).store.drops_writes == old(node).store.drops_writes
                        &&& (match spec_lookup(
                            registry_view(old(node).nonce_keys.entries@),
                            args.public_hex@,
                        ) {
                            Some(k) => {
                                &&& final(node).store.view_map() == if old(
                                    node,
                                ).store.drops_writes {
                                    old(node).store.view_map()
                                } else {
                                    old(node).store.view_map().insert(k, Seq::<u8>::empty())
                                }
                                &&& r == Ok::<CommandOutput, AdminError>(
                                    CommandOutput::NonceCleared(args.public_hex),
                                )
                            },
                            None => final(node).store == old(node).store && r == Err::<
                                CommandOutput,
                                AdminError,
                            >(AdminError::Transport),
                        })
                    },
                    NonceCommand::Show(args) => {
                        &&& *final(node) == *old(node)
                        &&& (match r {
                            Ok(out) => (match out {
                                CommandOutput::NonceStatusFor(st, acc) => acc == args.public_hex
                                    && spec_show_nonce(
                                    registry_view(old(node).nonce_keys.entries@),
                                    old(node).store.view_map(),
                                    args.public_hex@,
                                ) == Ok::<NonceStatus, AdminError>(st),
                                _ => false,
                            }),
                            Err(e) => spec_show_nonce(
                                registry_view(old(node).nonce_keys.entries@),
                                old(node).store.view_map(),
                                args.public_hex@,
                            ) == Err::<NonceStatus, AdminError>(e),
                        })
                    },
                }),
            }),
    {
        match self {
            Commands::Get(args) => {
                match get(&node.store, args.blockchain) {
                    Ok(u) => Ok(CommandOutput::ConfiguredUrl(u)),
                    Err(e) => Err(e),
                }
            },
            Commands::SetUrl(args) => {
                match crate::store::set(&mut node.store, args.blockchain, args.rpc_url.as_str()) {
                    Ok(_) => Ok(CommandOutput::UrlSet(args.blockchain, args.rpc_url)),
                    Err(e) => Err(e),
                }
            },
            Commands::Insert(args) => {
                match insert(
                    &mut node.keystore,
                    args.suri.as_str(),
                    args.public_hex.as_str(),
                    auth_key_tag(),
                ) {
                    Ok(_) => Ok(CommandOutput::KeyInserted(args.public_hex)),
                    Err(e) => Err(e),
                }
            },
            Commands::Account => {
                match authority_account(&node.authorities, &mut node.keystore, auth_key_tag()) {
                    Ok(a) => Ok(CommandOutput::Authority(a)),
                    Err(e) => Err(e),
                }
            },
            Commands::List => {
                match list_all(&node.store) {
                    Ok(rows) => Ok(CommandOutput::Listing(rows)),
                    Err(e) => Err(e),
                }
            },
            Commands::LogFilter(cmd) => {
                match cmd {
                    LogFilterCommand::Add(args) => {
                        add_log_filter(&mut node.log_filters, args.filter.as_str());
                        Ok(CommandOutput::FilterAdded(args.filter))
                    },
                    LogFilterCommand::Reset(_) => {
                        reset_log_filter(&mut node.log_filters);
                        Ok(CommandOutput::FilterReset)
                    },
                }
            },
            Commands::Nonce(cmd) => {
                match cmd {
                    NonceCommand::Reset(args) => {
                        match reset_nonce(
                            &node.nonce_keys,
                            &mut node.store,
                            args.public_hex.as_str(),
                        ) {
                            Ok(_) => Ok(CommandOutput::NonceCleared(args.public_hex)),
                            Err(e) => Err(e),
                        }
                    },
                    NonceCommand::Show(args) => {
                        match offchain_nonce(
                            &node.nonce_keys,
                            &node.store,
                            args.public_hex.as_str(),
                        ) {
                            Ok(st) => Ok(CommandOutput::NonceStatusFor(st, args.public_hex)),
                            Err(e) => Err(e),
                        }
                    },
                }
            },
        }
    }
}

} // verus!
