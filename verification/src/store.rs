//! The node's persistent offchain key/value store, modelled explicitly, and
//! the per-chain RPC URL configuration kept in it.
//!
//! Every piece of state the client manipulates lives on the remote node; the
//! model below gives that state an exact meaning (a map from key bytes to
//! value bytes) so the read, write and write-then-verify logic can be proved
//! against it.  The transport layer performs the same reads and writes over
//! RPC and hands the bytes to the same decoding functions.

use vstd::prelude::*;
use vstd::string::StringExecFns;
use crate::chain::{spec_chain_key, Blockchain};
use crate::codec::{decode_url, encode_url, spec_decode_url, spec_encode_url};
use crate::error::AdminError;

verus! {

/// The view of a list of key/value entries, earlier entries shadowing later
/// ones.
pub open spec fn map_of(es: Seq<(Seq<u8>, Seq<u8>)>) -> Map<Seq<u8>, Seq<u8>>
    decreases es.len(),
{
    if es.len() == 0 {
        Map::empty()
    } else {
        map_of(es.drop_first()).insert(es[0].0, es[0].1)
    }
}

/// The views of the entry pairs.
pub open spec fn entries_view(es: Seq<(Vec<u8>, Vec<u8>)>) -> Seq<(Seq<u8>, Seq<u8>)> {
    es.map_values(|p: (Vec<u8>, Vec<u8>)| (p.0@, p.1@))
}

/// A key bound only in the rest of the list keeps its binding.
proof fn lemma_map_of_skip(es: Seq<(Seq<u8>, Seq<u8>)>, i: int, k: Seq<u8>)
    requires
        0 <= i <= es.len(),
        forall|j: int| 0 <= j < i ==> (#[trigger] es[j]).0 != k,
    ensures
        map_of(es).contains_key(k) == map_of(es.skip(i)).contains_key(k),
        map_of(es).contains_key(k) ==> map_of(es)[k] == map_of(es.skip(i))[k],
    decreases i,
{
    if i > 0 {
        assert((es[0]).0 != k);
        assert forall|j: int| 0 <= j < i - 1 implies (#[trigger] es.drop_first()[j]).0 != k by {
            assert(es.drop_first()[j] == es[j + 1]);
        }
        lemma_map_of_skip(es.drop_first(), i - 1, k);
        assert(es.drop_first().skip(i - 1) =~= es.skip(i));
        assert(map_of(es) == map_of(es.drop_first()).insert((es[0]).0, (es[0]).1));
        assert(map_of(es).contains_key(k) == map_of(es.drop_first()).contains_key(k));
        if map_of(es).contains_key(k) {
            assert(map_of(es)[k] == map_of(es.drop_first())[k]);
        }
    } else {
        assert(es.skip(0) =~= es);
    }
}

/// The persistent offchain store of the remote node, "PERSISTENT" kind.
///
/// `drops_writes` models a faulty node that acknowledges a write without
/// applying it — the situation the write-then-verify discipline exists to
/// catch.
pub struct OffchainStore {
    /// Key/value entries, newest first: an earlier entry shadows later ones.
    pub entries: Vec<(Vec<u8>, Vec<u8>)>,
    /// When set, writes are acknowledged but not applied.
    pub drops_writes: bool,
}

impl OffchainStore {
    /// The store as a map from key bytes to value bytes.
    pub open spec fn view_map(&self) -> Map<Seq<u8>, Seq<u8>> {
        map_of(entries_view(self.entries@))
    }

    /// An empty, honest store.
    pub fn new() -> (r: Self)
        ensures
            r.view_map() == Map::<Seq<u8>, Seq<u8>>::empty(),
            !r.drops_writes,
    {
        let r = OffchainStore { entries: Vec::new(), drops_writes: false };
        proof {
            assert(entries_view(r.entries@) =~= Seq::<(Seq<u8>, Seq<u8>)>::empty());
        }
        r
    }

    /// Reads the value at `key`, or `None` where the key is unset.  Absence
    /// is a distinct, valid state, not an error.
    pub fn read(&self, key: &Vec<u8>) -> (r: Option<&Vec<u8>>)
        ensures
            (match r {
                Some(v) => self.view_map().contains_key(key@) && v@ == self.view_map()[key@],
                None => !self.view_map().contains_key(key@),
            }),
    {
        let n = self.entries.len();
        let mut i: usize = 0;
        while i < n
            invariant
                i <= n,
                n == self.entries@.len(),
                forall|j: int| 0 <= j < i ==> (#[trigger] entries_view(self.entries@)[j]).0
                    != key@,
            decreases n - i,
        {
            let p = &self.entries[i];
            if bytes_eq(&p.0, key) {
                proof {
                    let es = entries_view(self.entries@);
                    lemma_map_of_skip(es, i as int, key@);
                    assert(es.skip(i as int)[0] == es[i as int]);
                    assert(es.skip(i as int).drop_first() =~= es.skip(i as int + 1));
                    assert(map_of(es.skip(i as int)).contains_key(key@));
                    assert(map_of(es.skip(i as int))[key@] == es[i as int].1);
                }
                return Some(&p.1);
            }
            i = i + 1;
        }
        proof {
            let es = entries_view(self.entries@);
            lemma_map_of_skip(es, n as int, key@);
            assert(es.skip(n as int) =~= Seq::<(Seq<u8>, Seq<u8>)>::empty());
        }
        None
    }

    /// Writes `value` at `key`.  An honest node applies the write; a node
    /// that drops writes acknowledges it and changes nothing.  Either way the
    /// call itself reports nothing — only a read-back can tell.
    pub fn write(&mut self, key: Vec<u8>, value: Vec<u8>)
        ensures
            final(self).drops_writes == old(self).drops_writes,
            final(self).view_map() == if old(self).drops_writes {
                old(self).view_map()
            } else {
                old(self).view_map().insert(key@, value@)
            },
    {
        if !self.drops_writes {
            let ghost before = entries_view(self.entries@);
            self.entries.insert(0, (key, value));
            proof {
                let after = entries_view(self.entries@);
                assert(after.drop_first() =~= before);
                assert(after[0] == (key@, value@));
            }
        }
    }
}

/// Byte-string equality.
pub fn bytes_eq(a: &Vec<u8>, b: &Vec<u8>) -> (r: bool)
    ensures
        r == (a@ == b@),
{
    let n = a.len();
    if n != b.len() {
        return false;
    }
    let mut i: usize = 0;
    while i < n
        invariant
            i <= n,
            n == a@.len(),
            n == b@.len(),
            forall|j: int| 0 <= j < i ==> a@[j] == b@[j],
        decreases n - i,
    {
        if a[i] != b[i] {
            return false;
        }
        i = i + 1;
    }
    proof {
        assert(a@ =~= b@);
    }
    true
}

/// What `get` returns on a given store state: the configured URL, `None`
/// where the chain's key is unset, or a decode error where the stored bytes
/// are not an encoded string.
pub open spec fn spec_get(m: Map<Seq<u8>, Seq<u8>>, c: Blockchain) -> Result<
    Option<Seq<char>>,
    AdminError,
> {
    if !m.contains_key(spec_chain_key(c)) {
        Ok(None)
    } else {
        match spec_decode_url(m[spec_chain_key(c)]) {
            Some(u) => Ok(Some(u)),
            None => Err(AdminError::Decode),
        }
    }
}

/// Reads the RPC URL configured for `chain`.
pub fn get(store: &OffchainStore, chain: Blockchain) -> (r: Result<Option<String>, AdminError>)
    ensures
        (match r {
            Ok(Some(u)) => spec_get(store.view_map(), chain) == Ok::<Option<Seq<char>>, AdminError>(
                Some(u@),
            ),
            Ok(None) => spec_get(store.view_map(), chain) == Ok::<
                Option<Seq<char>>,
                AdminError,
            >(None),
            Err(e) => spec_get(store.view_map(), chain) == Err::<Option<Seq<char>>, AdminError>(e),
        }),
{
    let key = chain.to_key();
    match store.read(&key) {
        None => Ok(None),
        Some(v) => match decode_url(v.as_slice()) {
            Ok(u) => Ok(Some(u)),
            Err(e) => Err(e),
        },
    }
}

/// Configures the RPC URL for `chain`, then immediately reads the same key
/// back and checks that the stored bytes equal what was written.  A mismatch
/// is a consistency violation: the node accepted the write but did not
/// durably apply it.
pub fn set(store: &mut OffchainStore, chain: Blockchain, url: &str) -> (r: Result<(), AdminError>)
    ensures
        final(store).drops_writes == old(store).drops_writes,
        final(store).view_map() == if old(store).drops_writes {
            old(store).view_map()
        } else {
            old(store).view_map().insert(spec_chain_key(chain), spec_encode_url(url@))
        },
        r is Ok <==> final(store).view_map().contains_key(spec_chain_key(chain))
            && final(store).view_map()[spec_chain_key(chain)] == spec_encode_url(url@),
        r is Err ==> r == Err::<(), AdminError>(AdminError::Consistency),
{
    let key = chain.to_key();
    let value = encode_url(url);
    store.write(key, value);
    let key_again = chain.to_key();
    let value_again = encode_url(url);
    match store.read(&key_again) {
        Some(stored) => {
            if bytes_eq(stored, &value_again) {
                Ok(())
            } else {
                Err(AdminError::Consistency)
            }
        },
        None => Err(AdminError::Consistency),
    }
}

/// Setting a URL and immediately reading it back returns exactly that URL:
/// the write-then-verify discipline observes its own write on an honest
/// node.
pub proof fn lemma_set_then_get(m: Map<Seq<u8>, Seq<u8>>, chain: Blockchain, url: Seq<char>)
    ensures
        spec_get(m.insert(spec_chain_key(chain), spec_encode_url(url)), chain) == Ok::<
            Option<Seq<char>>,
            AdminError,
        >(Some(url)),
{
    crate::codec::lemma_url_round_trip(url);
}

/// A chain whose key was never set reads back as `None`.
pub proof fn lemma_get_unset(m: Map<Seq<u8>, Seq<u8>>, chain: Blockchain)
    requires
        !m.contains_key(spec_chain_key(chain)),
    ensures
        spec_get(m, chain) == Ok::<Option<Seq<char>>, AdminError>(None),
{
}

/// One row of the configuration listing.
#[derive(Clone, Debug)]
pub struct RpcConfig {
    pub blockchain: Blockchain,
    /// The configured URL, or the explicit `None` marker for an unset chain.
    pub url: String,
}

/// The four enumerated chains, in their canonical order.  EVM chains are
/// open-ended and not enumerable, so the listing does not include them.
pub open spec fn spec_all_chains() -> Seq<Blockchain> {
    seq![
        Blockchain::Ethereum,
        Blockchain::Rinkeby,
        Blockchain::Luniverse,
        Blockchain::Bitcoin,
    ]
}

/// The four enumerated chains, in their canonical order.
pub fn all_chains() -> (r: Vec<Blockchain>)
    ensures
        r@ == spec_all_chains(),
{
    let mut v: Vec<Blockchain> = Vec::new();
    v.push(Blockchain::Ethereum);
    v.push(Blockchain::Rinkeby);
    v.push(Blockchain::Luniverse);
    v.push(Blockchain::Bitcoin);
    proof {
        assert(v@ =~= spec_all_chains());
    }
    v
}

/// The text shown for one chain in the listing: its URL, or `None`.
pub open spec fn spec_list_row(m: Map<Seq<u8>, Seq<u8>>, c: Blockchain) -> Result<
    Seq<char>,
    AdminError,
> {
    match spec_get(m, c) {
        Ok(Some(u)) => Ok(u),
        Ok(None) => Ok("None"@),
        Err(e) => Err(e),
    }
}

/// Reads the configured URL of every enumerated chain and renders one row
/// per chain, in enumeration order, unset chains shown as the explicit
/// `None` marker rather than omitted.  A failure on any single chain aborts
/// the whole listing.
pub fn list_all(store: &OffchainStore) -> (r: Result<Vec<RpcConfig>, AdminError>)
    ensures
        (match r {
            Ok(rows) => {
                &&& rows@.len() == 4
                &&& forall|i: int|
                    0 <= i < 4 ==> (#[trigger] rows@[i]).blockchain == spec_all_chains()[i]
                &&& forall|i: int|
                    0 <= i < 4 ==> spec_list_row(store.view_map(), spec_all_chains()[i]) == Ok::<
                        Seq<char>,
                        AdminError,
                    >((#[trigger] rows@[i]).url@)
            },
            Err(e) => exists|i: int|
                0 <= i < 4 && spec_list_row(store.view_map(), #[trigger] spec_all_chains()[i])
                    == Err::<Seq<char>, AdminError>(e),
        }),
{
    let chains = all_chains();
    let mut rows: Vec<RpcConfig> = Vec::new();
    let n = chains.len();
    let mut i: usize = 0;
    while i < n
        invariant
            i <= n,
            n == 4,
            chains@ == spec_all_chains(),
            rows@.len() == i,
            forall|j: int| 0 <= j < i ==> (#[trigger] rows@[j]).blockchain == spec_all_chains()[j],
            forall|j: int|
                0 <= j < i ==> spec_list_row(store.view_map(), spec_all_chains()[j]) == Ok::<
                    Seq<char>,
                    AdminError,
                >((#[trigger] rows@[j]).url@),
        decreases n - i,
    {
        let chain = chains[i];
        let url = match get(store, chain) {
            Ok(Some(u)) => u,
            Ok(None) => {
                let marker = String::from_str("None");
                marker
            },
            Err(e) => {
                return Err(e);
            },
        };
        rows.push(RpcConfig { blockchain: chain, url });
        i = i + 1;
    }
    Ok(rows)
}

} // verus!
