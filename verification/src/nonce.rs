//! Offchain nonce administration: resolving the nonce storage key for an
//! account, inspecting the recorded nonce, and clearing it.

use vstd::prelude::*;
use vstd::string::StrSliceExecFns;
use crate::codec::{decode_u32, le_bytes, le_val, lemma_le_val_of_le_bytes, lemma_pow256_values};
use crate::error::AdminError;
use crate::keystore::str_eq;
use crate::store::OffchainStore;

verus! {

/// Models the node's "get offchain nonce storage key for account" RPC: the
/// node resolves an account reference — a hex public key or a checksummed
/// address — to the storage key its offchain worker tracks the last-used
/// nonce under.
pub struct NonceRegistry {
    /// (account reference, nonce storage key) pairs the node can resolve.
    pub entries: Vec<(String, Vec<u8>)>,
}

/// The views of the registry's pairs.
pub open spec fn registry_view(es: Seq<(String, Vec<u8>)>) -> Seq<(Seq<char>, Seq<u8>)> {
    es.map_values(|p: (String, Vec<u8>)| (p.0@, p.1@))
}

/// The key the registry resolves `acc` to, if any: first match wins.
pub open spec fn spec_lookup(rs: Seq<(Seq<char>, Seq<u8>)>, acc: Seq<char>) -> Option<Seq<u8>>
    decreases rs.len(),
{
    if rs.len() == 0 {
        None
    } else if rs[0].0 == acc {
        Some(rs[0].1)
    } else {
        spec_lookup(rs.drop_first(), acc)
    }
}

impl NonceRegistry {
    /// A registry that resolves nothing.
    pub fn new() -> (r: Self)
        ensures
            r.entries@.len() == 0,
    {
        NonceRegistry { entries: Vec::new() }
    }
}

/// Resolves the account reference to its nonce storage key.  An account the
/// node cannot resolve is a transport-level failure of the RPC.
pub fn offchain_nonce_key(reg: &NonceRegistry, account: &str) -> (r: Result<Vec<u8>, AdminError>)
    ensures
        (match r {
            Ok(k) => spec_lookup(registry_view(reg.entries@), account@) == Some(k@),
            Err(e) => spec_lookup(registry_view(reg.entries@), account@) is None && e
                == AdminError::Transport,
        }),
{
    let ghost rs = registry_view(reg.entries@);
    let n = reg.entries.len();
    let mut i: usize = 0;
    proof {
        assert(rs.skip(0) =~= rs);
    }
    while i < n
        invariant
            i <= n,
            n == reg.entries@.len(),
            rs == registry_view(reg.entries@),
            spec_lookup(rs, account@) == spec_lookup(rs.skip(i as int), account@),
        decreases n - i,
    {
        proof {
            assert(rs.skip(i as int)[0] == rs[i as int]);
            assert(rs.skip(i as int).drop_first() =~= rs.skip(i as int + 1));
        }
        let p = &reg.entries[i];
        if str_eq(p.0.as_str(), account) {
            let k = vstd::slice::slice_to_vec(p.1.as_slice());
            return Ok(k);
        }
        i = i + 1;
    }
    proof {
        assert(rs.skip(n as int) =~= Seq::<(Seq<char>, Seq<u8>)>::empty());
    }
    Err(AdminError::Transport)
}

/// What an account's nonce slot holds.
#[derive(Clone, Copy, Debug, PartialEq, Eq, Structural)]
pub enum NonceStatus {
    /// No nonce recorded: the slot is absent, or holds the erased
    /// (zero-length) value that the offchain worker treats as absence.
    NotRecorded,
    /// The recorded nonce.
    Recorded(u32),
    /// A present value that does not decode as a nonce.
    Malformed,
}

/// The status of the nonce slot at `key` in store state `m`.
pub open spec fn spec_nonce_status(m: Map<Seq<u8>, Seq<u8>>, key: Seq<u8>) -> NonceStatus {
    if !m.contains_key(key) {
        NonceStatus::NotRecorded
    } else if m[key].len() == 0 {
        NonceStatus::NotRecorded
    } else if m[key].len() == 4 {
        NonceStatus::Recorded(le_val(m[key]) as u32)
    } else {
        NonceStatus::Malformed
    }
}

/// What showing the nonce reports for `acc`: the status of the resolved
/// slot, or the resolution failure.
pub open spec fn spec_show_nonce(
    rs: Seq<(Seq<char>, Seq<u8>)>,
    m: Map<Seq<u8>, Seq<u8>>,
    acc: Seq<char>,
) -> Result<NonceStatus, AdminError> {
    match spec_lookup(rs, acc) {
        Some(k) => Ok(spec_nonce_status(m, k)),
        None => Err(AdminError::Transport),
    }
}

/// Reads the nonce recorded for the account: advisory inspection, reporting
/// absence, the value, or a malformed slot, each distinctly.
pub fn offchain_nonce(reg: &NonceRegistry, store: &OffchainStore, account: &str) -> (r: Result<
    NonceStatus,
    AdminError,
>)
    ensures
        r == spec_show_nonce(registry_view(reg.entries@), store.view_map(), account@),
{
    let key = match offchain_nonce_key(reg, account) {
        Ok(k) => k,
        Err(e) => {
            return Err(e);
        },
    };
    match store.read(&key) {
        None => Ok(NonceStatus::NotRecorded),
        Some(v) => {
            if v.len() == 0 {
                Ok(NonceStatus::NotRecorded)
            } else {
                match decode_u32(v.as_slice()) {
                    Ok(value) => {
                        proof {
                            lemma_pow256_values();
                            crate::codec::lemma_le_bytes_len(value as nat, 4);
                            lemma_le_val_of_le_bytes(value as nat, 4);
                        }
                        Ok(NonceStatus::Recorded(value))
                    },
                    Err(_) => Ok(NonceStatus::Malformed),
                }
            }
        },
    }
}

/// Clears the account's nonce by writing the erased, zero-length value at
/// the resolved key: the consuming offchain worker treats an empty or
/// undecodable value exactly like absence, so emptying the slot forgets the
/// nonce.
///
/// Deliberate asymmetry: unlike the URL and keystore mutators, no
/// verification read follows the write; the operation reports success once
/// the write call itself has.
pub fn reset_nonce(reg: &NonceRegistry, store: &mut OffchainStore, account: &str) -> (r: Result<
    (),
    AdminError,
>)
    ensures
        final(store).drops_writes == old(store).drops_writes,
        (match spec_lookup(registry_view(reg.entries@), account@) {
            Some(k) => {
                &&& final(store).view_map() == if old(store).drops_writes {
                    old(store).view_map()
                } else {
                    old(store).view_map().insert(k, Seq::<u8>::empty())
                }
                &&& r is Ok
            },
            None => *final(store) == *old(store) && r == Err::<(), AdminError>(
                AdminError::Transport,
            ),
        }),
{
    let key = match offchain_nonce_key(reg, account) {
        Ok(k) => k,
        Err(e) => {
            return Err(e);
        },
    };
    let empty: Vec<u8> = Vec::new();
    store.write(key, empty);
    Ok(())
}

/// Resetting the nonce and then showing it reports "no nonce recorded": on
/// an honest node the erased slot reads back as absence.
pub proof fn lemma_reset_then_show(
    rs: Seq<(Seq<char>, Seq<u8>)>,
    m: Map<Seq<u8>, Seq<u8>>,
    acc: Seq<char>,
    k: Seq<u8>,
)
    requires
        spec_lookup(rs, acc) == Some(k),
    ensures
        spec_show_nonce(rs, m.insert(k, Seq::<u8>::empty()), acc) == Ok::<
            NonceStatus,
            AdminError,
        >(NonceStatus::NotRecorded),
{
}

/// A recorded nonce reads back as itself: the slot written with the
/// four-byte form of `v` reports `Recorded(v)`.
pub proof fn lemma_nonce_round_trip(m: Map<Seq<u8>, Seq<u8>>, k: Seq<u8>, v: u32)
    ensures
        spec_nonce_status(m.insert(k, le_bytes(v as nat, 4)), k) == NonceStatus::Recorded(v),
{
    lemma_pow256_values();
    crate::codec::lemma_le_bytes_len(v as nat, 4);
    lemma_le_val_of_le_bytes(v as nat, 4);
}

} // verus!
