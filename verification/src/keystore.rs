//! The node's keystore, modelled, and the insert-then-check flow.

use vstd::prelude::*;
use vstd::slice::slice_to_vec;
use vstd::string::{StrSliceExecFns, StringExecFns};
use crate::error::AdminError;
use crate::hexstr::{decode_hex, spec_hex_bytes, spec_hex_ok, strip_0x};
use crate::store::bytes_eq;

verus! {

/// The key-type tag under which the authority signing key is kept on the
/// node line this client targets.  The tag is a configuration constant of
/// the node-version compatibility layer, not a property of the protocol:
/// operations take it as a parameter.
pub fn auth_key_tag() -> (r: &'static str)
    ensures
        r@ == "gots"@,
{
    "gots"
}

/// The key-type tag the earlier node line used for the same authority key.
pub fn legacy_auth_key_tag() -> (r: &'static str)
    ensures
        r@ == "ctcs"@,
{
    "ctcs"
}

/// The views of the keystore's (tag, public key) pairs.
pub open spec fn keys_view(ks: Seq<(String, Vec<u8>)>) -> Seq<(Seq<char>, Seq<u8>)> {
    ks.map_values(|p: (String, Vec<u8>)| (p.0@, p.1@))
}

/// The keystore holds a signing key for `key` under `tag`.
pub open spec fn spec_holds(keys: Seq<(Seq<char>, Seq<u8>)>, tag: Seq<char>, key: Seq<u8>) -> bool {
    exists|i: int| 0 <= i < keys.len() && #[trigger] keys[i] == (tag, key)
}

/// Text equality of two strings.
pub fn str_eq(a: &str, b: &str) -> (r: bool)
    ensures
        r == (a@ == b@),
{
    let n = a.unicode_len();
    if n != b.unicode_len() {
        return false;
    }
    let mut i: usize = 0;
    while i < n
        invariant
            i <= n,
            n == a@.len(),
            n == b@.len(),
            forall|j: int| 0 <= j < i ==> a@[j] == b@[j],
        decreases n - i,
    {
        let ca = a.get_char(i);
        let cb = b.get_char(i);
        proof {
            vstd::utf8::char_u32_cast(ca, ca as u32);
            vstd::utf8::char_u32_cast(cb, cb as u32);
        }
        if ca as u32 != cb as u32 {
            return false;
        }
        i = i + 1;
    }
    proof {
        assert(a@ =~= b@);
    }
    true
}

/// The node's keystore of signing keys, reached over the "insert key" and
/// "has key" RPCs.
///
/// `drops_inserts` models a node that accepts an insert without durably
/// holding the key — the silent failure the insert-then-check discipline
/// exists to surface.  `queries` counts "has key" calls, so that contracts
/// can state exactly how often the keystore is consulted.
pub struct Keystore {
    /// The (key-type tag, public key bytes) pairs the keystore holds.
    pub keys: Vec<(String, Vec<u8>)>,
    /// When set, inserts are acknowledged but not applied.
    pub drops_inserts: bool,
    /// How many "has key" queries were answered.
    pub queries: u64,
}

impl Keystore {
    /// An empty, honest keystore with no queries answered yet.
    pub fn new() -> (r: Self)
        ensures
            r.keys@.len() == 0,
            !r.drops_inserts,
            r.queries == 0,
    {
        Keystore { keys: Vec::new(), drops_inserts: false, queries: 0 }
    }

    /// Answers whether a signing key for `key` is held under `tag`, and
    /// counts the query.
    pub fn has_key(&mut self, key: &Vec<u8>, tag: &str) -> (r: bool)
        requires
            old(self).queries < u64::MAX,
        ensures
            final(self).keys == old(self).keys,
            final(self).drops_inserts == old(self).drops_inserts,
            final(self).queries == old(self).queries + 1,
            r == spec_holds(keys_view(old(self).keys@), tag@, key@),
    {
        self.queries = self.queries + 1;
        let n = self.keys.len();
        let mut i: usize = 0;
        while i < n
            invariant
                i <= n,
                n == self.keys@.len(),
                self.keys == old(self).keys,
                self.drops_inserts == old(self).drops_inserts,
                self.queries == old(self).queries + 1,
                forall|j: int|
                    0 <= j < i ==> #[trigger] keys_view(self.keys@)[j] != (tag@, key@),
            decreases n - i,
        {
            let p = &self.keys[i];
            if str_eq(p.0.as_str(), tag) && bytes_eq(&p.1, key) {
                proof {
                    assert(keys_view(self.keys@)[i as int] == (tag@, key@));
                }
                return true;
            }
            proof {
                assert(keys_view(self.keys@)[i as int] == (self.keys@[i as int].0@,
                self.keys@[i as int].1@));
            }
            i = i + 1;
        }
        false
    }

    /// Accepts a mnemonic and its declared public key under `tag`.  An
    /// honest node derives the signing pair and holds it; what "has key"
    /// later observes is the (tag, public key) pair.  A node that drops
    /// inserts acknowledges the call and holds nothing new.
    pub fn insert_key(&mut self, tag: &str, _suri: &str, key: &Vec<u8>)
        ensures
            final(self).queries == old(self).queries,
            final(self).drops_inserts == old(self).drops_inserts,
            keys_view(final(self).keys@) == if old(self).drops_inserts {
                keys_view(old(self).keys@)
            } else {
                keys_view(old(self).keys@).push((tag@, key@))
            },
    {
        if !self.drops_inserts {
            let t = String::from_str(tag);
            let k = slice_to_vec(key.as_slice());
            self.keys.push((t, k));
            proof {
                assert(keys_view(self.keys@) =~= keys_view(old(self).keys@).push((tag@, key@)));
            }
        }
    }
}

/// Inserts a signing key into the keystore and verifies the insert stuck.
///
/// The declared public key is hex text, with or without a `0x` prefix; bad
/// hex is a parse error reported before any keystore call.  After the
/// insert, a "has key" check is made with the same tag and the same key
/// bytes; a node that claims to have inserted but does not hold the key is
/// reported as a consistency violation, never silently accepted.
pub fn insert(ks: &mut Keystore, suri: &str, public_hex: &str, tag: &str) -> (r: Result<
    (),
    AdminError,
>)
    requires
        old(ks).queries < u64::MAX,
    ensures
        !spec_hex_ok(public_hex@) ==> r == Err::<(), AdminError>(AdminError::Parse) && *final(ks)
            == *old(ks),
        spec_hex_ok(public_hex@) ==> {
            let pk = spec_hex_bytes(strip_0x(public_hex@));
            &&& final(ks).queries == old(ks).queries + 1
            &&& final(ks).drops_inserts == old(ks).drops_inserts
            &&& keys_view(final(ks).keys@) == if old(ks).drops_inserts {
                keys_view(old(ks).keys@)
            } else {
                keys_view(old(ks).keys@).push((tag@, pk))
            }
            &&& (r is Ok <==> spec_holds(keys_view(final(ks).keys@), tag@, pk))
            &&& (r is Err ==> r == Err::<(), AdminError>(AdminError::Consistency))
            &&& (!old(ks).drops_inserts ==> r is Ok)
        },
{
    let pk = match decode_hex(public_hex) {
        Ok(b) => b,
        Err(_) => {
            return Err(AdminError::Parse);
        },
    };
    ks.insert_key(tag, suri, &pk);
    let held = ks.has_key(&pk, tag);
    proof {
        if !ks.drops_inserts {
            let kv = keys_view(ks.keys@);
            assert(kv[kv.len() - 1] == (tag@, pk@));
            assert(spec_holds(kv, tag@, pk@));
        }
    }
    if held {
        Ok(())
    } else {
        Err(AdminError::Consistency)
    }
}

} // verus!
