//! Discovery of the authority account: a linear scan of the remote
//! authorities registry, cross-checked against the node's keystore, with
//! early exit on the first match.

use vstd::prelude::*;
use vstd::slice::{slice_subrange, slice_to_vec};
use crate::error::AdminError;
use crate::keystore::{keys_view, spec_holds, Keystore};

verus! {

/// Exactly 32 raw bytes identifying a cryptographic account.
#[derive(Clone, Debug, PartialEq, Eq)]
pub struct AccountId {
    pub bytes: Vec<u8>,
}

/// The canonical SS58-check text of 32 account bytes under the substrate
/// address prefix: what the account's display encoding renders.
pub uninterp spec fn ss58_of(account: Seq<u8>) -> Seq<char>;

/// Relies on the `Display` implementation of subxt's `utils::AccountId32`:
/// it renders the SS58-check encoding of the bytes under the fixed
/// substrate prefix (base58 of prefix, account bytes and a two-byte hash
/// checksum), a function of the account bytes alone.
#[verifier::external_body]
fn ss58_render(bytes: &Vec<u8>) -> (r: String)
    requires
        bytes@.len() == 32,
    ensures
        r@ == ss58_of(bytes@),
{
    let mut arr = [0u8; 32];
    arr.copy_from_slice(&bytes[..]);
    subxt::utils::AccountId32(arr).to_string()
}

impl AccountId {
    /// An account identifier is well-formed when it holds exactly 32 bytes.
    pub open spec fn wf(&self) -> bool {
        self.bytes@.len() == 32
    }

    /// The canonical checksummed text encoding of the account, for display.
    pub fn to_ss58check(&self) -> (r: String)
        requires
            self.wf(),
        ensures
            r@ == ss58_of(self.bytes@),
    {
        ss58_render(&self.bytes)
    }
}

/// The account identifier carried in the trailing 32 bytes of a storage-map
/// key.
pub open spec fn spec_entry_account(e: Seq<u8>) -> Seq<u8>
    recommends
        e.len() >= 32,
{
    e.skip(e.len() - 32)
}

/// The views of the raw registry entries.
pub open spec fn entries_bytes(es: Seq<Vec<u8>>) -> Seq<Seq<u8>> {
    es.map_values(|v: Vec<u8>| v@)
}

/// Reads the account identifier out of one registry entry.  An entry too
/// short to carry one indicates a node/schema mismatch and is fatal, not
/// recoverable.
pub fn decode_account(entry: &Vec<u8>) -> (r: Result<AccountId, AdminError>)
    ensures
        (match r {
            Ok(a) => entry@.len() >= 32 && a.wf() && a.bytes@ == spec_entry_account(entry@),
            Err(e) => entry@.len() < 32 && e == AdminError::Decode,
        }),
{
    let n = entry.len();
    if n < 32 {
        Err(AdminError::Decode)
    } else {
        let bytes = slice_to_vec(slice_subrange(entry.as_slice(), n - 32, n));
        proof {
            assert(bytes@ =~= spec_entry_account(entry@));
        }
        Ok(AccountId { bytes })
    }
}

/// What the scan returns on given registry entries and keystore contents:
/// the first entry's account that the keystore holds under `tag`, `None`
/// after an exhaustive scan without a match, or a decode error on the first
/// malformed entry.
pub open spec fn spec_scan(es: Seq<Seq<u8>>, keys: Seq<(Seq<char>, Seq<u8>)>, tag: Seq<char>)
    -> Result<Option<Seq<u8>>, AdminError>
    decreases es.len(),
{
    if es.len() == 0 {
        Ok(None)
    } else if es[0].len() < 32 {
        Err(AdminError::Decode)
    } else if spec_holds(keys, tag, spec_entry_account(es[0])) {
        Ok(Some(spec_entry_account(es[0])))
    } else {
        spec_scan(es.drop_first(), keys, tag)
    }
}

/// How many "has key" queries the scan makes: one per entry, up to and
/// including the match, and none past it.
pub open spec fn spec_scan_queries(
    es: Seq<Seq<u8>>,
    keys: Seq<(Seq<char>, Seq<u8>)>,
    tag: Seq<char>,
) -> nat
    decreases es.len(),
{
    if es.len() == 0 {
        0
    } else if es[0].len() < 32 {
        0
    } else if spec_holds(keys, tag, spec_entry_account(es[0])) {
        1
    } else {
        1 + spec_scan_queries(es.drop_first(), keys, tag)
    }
}

/// Scans the registry entries in order for the one account whose signing
/// key the local keystore holds under `tag`, stopping at the first match.
///
/// A single scan: no caching, no retry; each candidate costs exactly one
/// "has key" query and nothing is queried past the match.
pub fn authority_account(entries: &Vec<Vec<u8>>, ks: &mut Keystore, tag: &str) -> (r: Result<
    Option<AccountId>,
    AdminError,
>)
    requires
        old(ks).queries + entries@.len() <= u64::MAX,
    ensures
        final(ks).keys == old(ks).keys,
        final(ks).drops_inserts == old(ks).drops_inserts,
        final(ks).queries == old(ks).queries + spec_scan_queries(
            entries_bytes(entries@),
            keys_view(old(ks).keys@),
            tag@,
        ),
        (match r {
            Ok(Some(a)) => a.wf() && spec_scan(
                entries_bytes(entries@),
                keys_view(old(ks).keys@),
                tag@,
            ) == Ok::<Option<Seq<u8>>, AdminError>(Some(a.bytes@)),
            Ok(None) => spec_scan(entries_bytes(entries@), keys_view(old(ks).keys@), tag@)
                == Ok::<Option<Seq<u8>>, AdminError>(None),
            Err(e) => spec_scan(entries_bytes(entries@), keys_view(old(ks).keys@), tag@)
                == Err::<Option<Seq<u8>>, AdminError>(e),
        }),
{
    let ghost es = entries_bytes(entries@);
    let ghost keys0 = keys_view(old(ks).keys@);
    let ghost q0 = old(ks).queries as nat;
    let n = entries.len();
    let mut i: usize = 0;
    proof {
        assert(es.skip(0) =~= es);
    }
    while i < n
        invariant
            i <= n,
            n == entries@.len(),
            es == entries_bytes(entries@),
            keys0 == keys_view(ks.keys@),
            ks.keys == old(ks).keys,
            ks.drops_inserts == old(ks).drops_inserts,
            q0 == old(ks).queries as nat,
            q0 + es.len() <= u64::MAX,
            ks.queries as nat == q0 + (i as nat),
            spec_scan(es, keys0, tag@) == spec_scan(es.skip(i as int), keys0, tag@),
            spec_scan_queries(es, keys0, tag@) == (i as nat) + spec_scan_queries(
                es.skip(i as int),
                keys0,
                tag@,
            ),
        decreases n - i,
    {
        let ghost suffix = es.skip(i as int);
        proof {
            assert(suffix[0] == es[i as int]);
            assert(suffix.drop_first() =~= es.skip(i as int + 1));
        }
        let entry = &entries[i];
        let account = match decode_account(entry) {
            Ok(a) => a,
            Err(e) => {
                return Err(e);
            },
        };
        let held = ks.has_key(&account.bytes, tag);
        if held {
            return Ok(Some(account));
        }
        i = i + 1;
    }
    proof {
        assert(es.skip(n as int) =~= Seq::<Seq<u8>>::empty());
    }
    Ok(None)
}

/// First match wins: when entry `i` is the first whose account the keystore
/// holds, the scan returns exactly that account, makes `i + 1` queries, and
/// looks at nothing after the match.
pub proof fn lemma_scan_finds_first_match(
    es: Seq<Seq<u8>>,
    keys: Seq<(Seq<char>, Seq<u8>)>,
    tag: Seq<char>,
    i: int,
)
    requires
        0 <= i < es.len(),
        forall|j: int|
            0 <= j < i ==> (#[trigger] es[j]).len() >= 32 && !spec_holds(
                keys,
                tag,
                spec_entry_account(es[j]),
            ),
        es[i].len() >= 32,
        spec_holds(keys, tag, spec_entry_account(es[i])),
    ensures
        spec_scan(es, keys, tag) == Ok::<Option<Seq<u8>>, AdminError>(
            Some(spec_entry_account(es[i])),
        ),
        spec_scan_queries(es, keys, tag) == i + 1,
    decreases i,
{
    if i > 0 {
        assert(es[0].len() >= 32 && !spec_holds(keys, tag, spec_entry_account(es[0])));
        assert forall|j: int|
            0 <= j < i - 1 implies (#[trigger] es.drop_first()[j]).len() >= 32 && !spec_holds(
            keys,
            tag,
            spec_entry_account(es.drop_first()[j]),
        ) by {
            assert(es.drop_first()[j] == es[j + 1]);
        }
        assert(es.drop_first()[i - 1] == es[i]);
        lemma_scan_finds_first_match(es.drop_first(), keys, tag, i - 1);
    }
}

/// With no matching entry the scan is exhaustive: every one of the entries
/// costs a query and the result is "no authority account".
pub proof fn lemma_scan_no_match(es: Seq<Seq<u8>>, keys: Seq<(Seq<char>, Seq<u8>)>, tag: Seq<char>)
    requires
        forall|j: int|
            0 <= j < es.len() ==> (#[trigger] es[j]).len() >= 32 && !spec_holds(
                keys,
                tag,
                spec_entry_account(es[j]),
            ),
    ensures
        spec_scan(es, keys, tag) == Ok::<Option<Seq<u8>>, AdminError>(None),
        spec_scan_queries(es, keys, tag) == es.len(),
    decreases es.len(),
{
    if es.len() > 0 {
        assert(es[0].len() >= 32 && !spec_holds(keys, tag, spec_entry_account(es[0])));
        assert forall|j: int|
            0 <= j < es.drop_first().len() implies (#[trigger] es.drop_first()[j]).len() >= 32
            && !spec_holds(keys, tag, spec_entry_account(es.drop_first()[j])) by {
            assert(es.drop_first()[j] == es[j + 1]);
        }
        lemma_scan_no_match(es.drop_first(), keys, tag);
    }
}

/// The scan never queries the keystore more often than there are entries.
pub proof fn lemma_scan_queries_bounded(
    es: Seq<Seq<u8>>,
    keys: Seq<(Seq<char>, Seq<u8>)>,
    tag: Seq<char>,
)
    ensures
        spec_scan_queries(es, keys, tag) <= es.len(),
    decreases es.len(),
{
    if es.len() > 0 {
        lemma_scan_queries_bounded(es.drop_first(), keys, tag);
    }
}

} // verus!
