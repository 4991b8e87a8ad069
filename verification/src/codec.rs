//! Length-prefixed binary scalar encodings for offchain storage values.
//!
//! Stored values are understood as a compact (variable-width) length prefix
//! followed by the payload bytes (for RPC URL strings), or as a fixed-width
//! little-endian scalar (for the `u32` offchain nonce).  The compact prefix
//! follows the node's scalar codec: mode bits in the two lowest bits of the
//! first byte select a 1-, 2- or 4-byte form or a big-integer form of 4 to 8
//! little-endian bytes.

use vstd::prelude::*;
use vstd::arithmetic::div_mod::*;
use vstd::slice::{slice_subrange, slice_to_vec};
use vstd::string::StrSliceExecFns;
use vstd::utf8::{decode_utf8, decode_utf8_encode_utf8, encode_utf8, encode_utf8_decode_utf8,
    encode_utf8_valid_utf8, valid_utf8};
use crate::error::AdminError;

verus! {

/// `256^m`: the number of values a string of `m` bytes can carry.
pub open spec fn pow256(m: nat) -> nat
    decreases m,
{
    if m == 0 {
        1
    } else {
        256 * pow256((m - 1) as nat)
    }
}

/// The `m`-byte little-endian encoding of `n % 256^m`.
pub open spec fn le_bytes(n: nat, m: nat) -> Seq<u8>
    decreases m,
{
    if m == 0 {
        Seq::empty()
    } else {
        seq![(n % 256) as u8] + le_bytes(n / 256, (m - 1) as nat)
    }
}

/// The value read back from a little-endian byte string.
pub open spec fn le_val(s: Seq<u8>) -> nat
    decreases s.len(),
{
    if s.len() == 0 {
        0
    } else {
        (s[0] + 256 * le_val(s.drop_first())) as nat
    }
}

pub proof fn lemma_pow256_values()
    ensures
        pow256(0) == 1,
        pow256(1) == 0x100,
        pow256(2) == 0x1_0000,
        pow256(3) == 0x100_0000,
        pow256(4) == 0x1_0000_0000,
        pow256(5) == 0x100_0000_0000,
        pow256(6) == 0x1_0000_0000_0000,
        pow256(7) == 0x100_0000_0000_0000,
        pow256(8) == 0x1_0000_0000_0000_0000,
{
    reveal_with_fuel(pow256, 9);
    assert(pow256(1) == 0x100);
    assert(pow256(2) == 0x1_0000);
    assert(pow256(3) == 0x100_0000);
    assert(pow256(4) == 0x1_0000_0000);
    assert(pow256(5) == 0x100_0000_0000);
    assert(pow256(6) == 0x1_0000_0000_0000);
    assert(pow256(7) == 0x100_0000_0000_0000);
    assert(pow256(8) == 0x1_0000_0000_0000_0000);
}

pub proof fn lemma_le_bytes_len(n: nat, m: nat)
    ensures
        le_bytes(n, m).len() == m,
    decreases m,
{
    if m > 0 {
        lemma_le_bytes_len(n / 256, (m - 1) as nat);
    }
}

/// Writing `n` and reading it back is the identity, provided `n` fits in `m` bytes.
pub proof fn lemma_le_val_of_le_bytes(n: nat, m: nat)
    requires
        n < pow256(m),
    ensures
        le_val(le_bytes(n, m)) == n,
    decreases m,
{
    if m > 0 {
        let s = le_bytes(n, m);
        assert(s.drop_first() =~= le_bytes(n / 256, (m - 1) as nat));
        lemma_div_pos_is_pos(n as int, 256);
        lemma_div_is_ordered_by_denominator(n as int, 1, 256);
        assert(n / 256 < pow256((m - 1) as nat)) by {
            lemma_multiply_divide_lt(n as int, pow256((m - 1) as nat) as int, 256);
        }
        lemma_le_val_of_le_bytes(n / 256, (m - 1) as nat);
        lemma_fundamental_div_mod(n as int, 256);
    }
}

/// Any byte string is the little-endian encoding of the value read from it.
pub proof fn lemma_le_bytes_of_le_val(s: Seq<u8>)
    ensures
        le_bytes(le_val(s), s.len()) == s,
    decreases s.len(),
{
    if s.len() > 0 {
        let v = le_val(s) as int;
        let rest = le_val(s.drop_first()) as int;
        lemma_fundamental_div_mod_converse(v, 256, rest, s[0] as int);
        lemma_le_bytes_of_le_val(s.drop_first());
        assert(le_bytes(le_val(s), s.len()) =~= s);
    }
}

/// The value read from `m` bytes fits in `m` bytes.
pub proof fn lemma_le_val_bound(s: Seq<u8>)
    ensures
        le_val(s) < pow256(s.len()),
    decreases s.len(),
{
    if s.len() > 0 {
        lemma_le_val_bound(s.drop_first());
    }
}

/// Appends the `m`-byte little-endian encoding of `n` to `out`.
fn push_le(out: &mut Vec<u8>, n: u64, m: usize)
    ensures
        final(out)@ == old(out)@ + le_bytes(n as nat, m as nat),
{
    let ghost base = out@;
    let mut cur: u64 = n;
    let mut i: usize = 0;
    while i < m
        invariant
            i <= m,
            out@.len() == base.len() + i,
            out@.subrange(0, base.len() as int) == base,
            le_bytes(n as nat, m as nat) =~= out@.subrange(base.len() as int, out@.len() as int)
                + le_bytes(cur as nat, (m - i) as nat),
        decreases m - i,
    {
        let ghost pre = out@;
        let ghost cur_pre = cur as nat;
        out.push((cur % 256) as u8);
        cur = cur / 256;
        i = i + 1;
        proof {
            assert(le_bytes(cur_pre, (m - (i - 1)) as nat) =~= seq![(cur_pre % 256) as u8]
                + le_bytes(cur_pre / 256, (m - i) as nat));
            assert(out@.subrange(0, base.len() as int) =~= base);
            assert(out@.subrange(base.len() as int, out@.len() as int) =~= pre.subrange(
                base.len() as int,
                pre.len() as int,
            ) + seq![(cur_pre % 256) as u8]);
        }
    }
    proof {
        assert(le_bytes(cur as nat, 0) =~= Seq::<u8>::empty());
        assert(out@ =~= base + out@.subrange(base.len() as int, out@.len() as int));
    }
}

/// Reads the value of the `m` bytes starting at `off` as a little-endian scalar.
fn read_le(bytes: &[u8], off: usize, m: usize) -> (r: u64)
    requires
        off + m <= bytes@.len(),
        m <= 8,
    ensures
        r as nat == le_val(bytes@.subrange(off as int, (off + m) as int)),
{
    proof {
        lemma_pow256_values();
    }
    let total: usize = bytes.len();
    let mut acc: u64 = 0;
    let mut j: usize = m;
    while j > 0
        invariant
            j <= m,
            m <= 8,
            off + m <= total,
            total == bytes@.len(),
            acc as nat == le_val(bytes@.subrange((off + j) as int, (off + m) as int)),
            acc < pow256((m - j) as nat),
            pow256(8) == 0x1_0000_0000_0000_0000,
        decreases j,
    {
        j = j - 1;
        proof {
            let s = bytes@.subrange((off + j) as int, (off + m) as int);
            assert(s.drop_first() =~= bytes@.subrange((off + j + 1) as int, (off + m) as int));
            assert(pow256(((m - j) - 1) as nat) * 256 == pow256((m - j) as nat));
            assert(pow256((m - j) as nat) <= pow256(8)) by {
                lemma_pow256_increases((m - j) as nat, 8);
            }
        }
        acc = acc * 256 + bytes[off + j] as u64;
    }
    proof {
        assert(bytes@.subrange((off + j) as int, (off + m) as int) =~= bytes@.subrange(
            off as int,
            (off + m) as int,
        ));
    }
    acc
}

pub proof fn lemma_pow256_increases(a: nat, b: nat)
    requires
        a <= b,
    ensures
        pow256(a) <= pow256(b),
    decreases b,
{
    if a < b {
        lemma_pow256_increases(a, (b - 1) as nat);
    }
}

/// How many little-endian bytes the big-integer form of the compact encoding
/// uses for a value too large for the 4-byte form.
pub open spec fn compact_big_len(n: nat) -> nat {
    if n < 0x1_0000_0000 {
        4
    } else if n < 0x100_0000_0000 {
        5
    } else if n < 0x1_0000_0000_0000 {
        6
    } else if n < 0x100_0000_0000_0000 {
        7
    } else {
        8
    }
}

/// Which of the four compact forms encodes `n`: the form is chosen by range
/// and announced in the two lowest bits of the first byte.
pub open spec fn compact_mode(n: nat) -> nat {
    if n < 64 {
        0
    } else if n < 16384 {
        1
    } else if n < 0x4000_0000 {
        2
    } else {
        3
    }
}

/// The compact encoding of `n`: a canonical variable-width length prefix.
pub open spec fn spec_compact(n: nat) -> Seq<u8>
    recommends
        n < 0x1_0000_0000_0000_0000,
{
    if n < 64 {
        seq![(4 * n) as u8]
    } else if n < 16384 {
        le_bytes(4 * n + 1, 2)
    } else if n < 0x4000_0000 {
        le_bytes(4 * n + 2, 4)
    } else {
        seq![(3 + 4 * (compact_big_len(n) - 4)) as u8] + le_bytes(n, compact_big_len(n))
    }
}

/// `p` is an initial segment of `s`.
pub open spec fn is_seq_prefix(p: Seq<u8>, s: Seq<u8>) -> bool {
    p.len() <= s.len() && p == s.subrange(0, p.len() as int)
}

/// `(256q + r) % 4 == r % 4`: reducing modulo 256 does not disturb the
/// two lowest bits.
proof fn lemma_mod256_preserves_mod4(x: nat)
    ensures
        (x % 256) % 4 == x % 4,
{
    lemma_fundamental_div_mod(x as int, 256);
    lemma_mod_multiples_vanish(64 * (x as int / 256), (x as int % 256), 4);
}

/// The shape of every compact encoding: its length, its first byte, and how
/// the encoded value is recovered from its bytes.
pub proof fn lemma_compact_shape(n: nat)
    requires
        n < 0x1_0000_0000_0000_0000,
    ensures
        1 <= spec_compact(n).len() <= 9,
        compact_mode(n) == 0 ==> spec_compact(n).len() == 1,
        compact_mode(n) == 1 ==> spec_compact(n).len() == 2,
        compact_mode(n) == 2 ==> spec_compact(n).len() == 4,
        compact_mode(n) == 3 ==> spec_compact(n).len() == 1 + compact_big_len(n),
        spec_compact(n)[0] as nat % 4 == compact_mode(n),
        compact_mode(n) == 0 ==> spec_compact(n)[0] == 4 * n,
        compact_mode(n) == 1 ==> le_val(spec_compact(n)) == 4 * n + 1,
        compact_mode(n) == 2 ==> le_val(spec_compact(n)) == 4 * n + 2,
        compact_mode(n) == 3 ==> spec_compact(n)[0] == 3 + 4 * (compact_big_len(n) - 4)
            && spec_compact(n).subrange(1, spec_compact(n).len() as int) == le_bytes(
            n,
            compact_big_len(n),
        ) && n < pow256(compact_big_len(n)) && 4 <= compact_big_len(n) <= 8,
{
    lemma_pow256_values();
    if n < 64 {
        lemma_mod_multiples_basic(n as int, 4);
        assert((4 * n) as u8 == 4 * n);
    } else if n < 16384 {
        let v = 4 * n + 1;
        lemma_le_bytes_len(v, 2);
        lemma_le_val_of_le_bytes(v, 2);
        assert(spec_compact(n)[0] == (v % 256) as u8);
        lemma_mod256_preserves_mod4(v);
        lemma_mod_multiples_vanish(n as int, 1, 4);
        assert(v % 4 == 1);
        assert((v % 256) < 256);
    } else if n < 0x4000_0000 {
        let v = 4 * n + 2;
        lemma_le_bytes_len(v, 4);
        lemma_le_val_of_le_bytes(v, 4);
        assert(spec_compact(n)[0] == (v % 256) as u8);
        lemma_mod256_preserves_mod4(v);
        lemma_mod_multiples_vanish(n as int, 2, 4);
    } else {
        let bl = compact_big_len(n);
        let b0 = 3 + 4 * (bl - 4);
        lemma_le_bytes_len(n, bl);
        assert(b0 < 256);
        assert((b0 as u8) as nat == b0);
        lemma_mod_multiples_vanish((bl - 4) as int, 3, 4);
        assert(b0 % 4 == 3);
        assert(spec_compact(n).subrange(1, spec_compact(n).len() as int) =~= le_bytes(n, bl));
    }
}

/// Two compact encodings that both start the same byte string encode the same
/// value: the prefix fully determines what was encoded.
pub proof fn lemma_compact_prefix_deterministic(n1: nat, n2: nat, b: Seq<u8>)
    requires
        n1 < 0x1_0000_0000_0000_0000,
        n2 < 0x1_0000_0000_0000_0000,
        is_seq_prefix(spec_compact(n1), b),
        is_seq_prefix(spec_compact(n2), b),
    ensures
        n1 == n2,
{
    lemma_pow256_values();
    lemma_compact_shape(n1);
    lemma_compact_shape(n2);
    let p1 = spec_compact(n1);
    let p2 = spec_compact(n2);
    assert(p1[0] == b[0]);
    assert(p2[0] == b[0]);
    assert(compact_mode(n1) == compact_mode(n2));
    if compact_mode(n1) == 0 {
        assert(4 * n1 == 4 * n2);
    } else if compact_mode(n1) == 1 {
        assert(p1 =~= b.subrange(0, 2));
        assert(p2 =~= b.subrange(0, 2));
        assert(4 * n1 + 1 == 4 * n2 + 1);
    } else if compact_mode(n1) == 2 {
        assert(p1 =~= b.subrange(0, 4));
        assert(p2 =~= b.subrange(0, 4));
        assert(4 * n1 + 2 == 4 * n2 + 2);
    } else {
        let m = compact_big_len(n1);
        assert(3 + 4 * (m - 4) == 3 + 4 * (compact_big_len(n2) - 4));
        assert(compact_big_len(n2) == m);
        assert(p1.subrange(1, (1 + m) as int) =~= b.subrange(1, (1 + m) as int));
        assert(p2.subrange(1, (1 + m) as int) =~= b.subrange(1, (1 + m) as int));
        assert(le_bytes(n1, m) == le_bytes(n2, m));
        lemma_le_val_of_le_bytes(n1, m);
        lemma_le_val_of_le_bytes(n2, m);
    }
}

/// The number of little-endian bytes needed for the big-integer compact form.
fn big_len_of(v: u64) -> (r: usize)
    ensures
        r as nat == compact_big_len(v as nat),
        4 <= r <= 8,
{
    if v < 0x1_0000_0000 {
        4
    } else if v < 0x100_0000_0000 {
        5
    } else if v < 0x1_0000_0000_0000 {
        6
    } else if v < 0x100_0000_0000_0000 {
        7
    } else {
        8
    }
}

/// Emits the canonical compact encoding of `n`.
pub fn encode_compact(n: u64) -> (r: Vec<u8>)
    ensures
        r@ == spec_compact(n as nat),
{
    proof {
        lemma_pow256_values();
    }
    let mut out: Vec<u8> = Vec::new();
    if n < 64 {
        out.push((4 * n) as u8);
        proof {
            assert(out@ =~= spec_compact(n as nat));
        }
    } else if n < 16384 {
        push_le(&mut out, 4 * n + 1, 2);
        proof {
            assert(out@ =~= spec_compact(n as nat));
        }
    } else if n < 0x4000_0000 {
        push_le(&mut out, 4 * n + 2, 4);
        proof {
            assert(out@ =~= spec_compact(n as nat));
        }
    } else {
        let m = big_len_of(n);
        out.push((3 + 4 * (m as u64 - 4)) as u8);
        push_le(&mut out, n, m);
        proof {
            assert(out@ =~= spec_compact(n as nat));
        }
    }
    out
}

/// Reads a canonical compact encoding from the front of `bytes`.
///
/// On success the result carries the decoded value and how many bytes the
/// prefix used; `None` means no canonical compact encoding starts `bytes`.
pub fn decode_compact(bytes: &[u8]) -> (r: Option<(u64, usize)>)
    ensures
        (match r {
            Some(p) => {
                &&& p.1 as nat == spec_compact(p.0 as nat).len()
                &&& p.1 <= bytes@.len()
                &&& bytes@.subrange(0, p.1 as int) == spec_compact(p.0 as nat)
            },
            None => forall|n: nat|
                n < 0x1_0000_0000_0000_0000 ==> !is_seq_prefix(#[trigger] spec_compact(n), bytes@),
        }),
{
    proof {
        lemma_pow256_values();
    }
    let blen: usize = bytes.len();
    if blen == 0 {
        proof {
            assert forall|n: nat|
                n < 0x1_0000_0000_0000_0000 implies !is_seq_prefix(
                #[trigger] spec_compact(n),
                bytes@,
            ) by {
                lemma_compact_shape(n);
            }
        }
        return None;
    }
    let b0: u8 = bytes[0];
    let mode: u8 = b0 % 4;
    if mode == 0 {
        let n: u64 = (b0 / 4) as u64;
        proof {
            lemma_compact_shape(n as nat);
            lemma_fundamental_div_mod(b0 as int, 4);
            assert(4 * (n as nat) == b0 as nat);
            assert(spec_compact(n as nat) =~= bytes@.subrange(0, 1));
        }
        Some((n, 1))
    } else if mode == 1 {
        if blen < 2 {
            proof {
                assert forall|n: nat|
                    n < 0x1_0000_0000_0000_0000 implies !is_seq_prefix(
                    #[trigger] spec_compact(n),
                    bytes@,
                ) by {
                    lemma_compact_shape(n);
                    if is_seq_prefix(spec_compact(n), bytes@) {
                        assert(spec_compact(n)[0] == b0);
                        assert(compact_mode(n) == 1);
                        assert(spec_compact(n).len() == 2);
                    }
                }
            }
            return None;
        }
        let v: u64 = b0 as u64 + 256 * (bytes[1] as u64);
        let n: u64 = v / 4;
        proof {
            let sub = bytes@.subrange(0, 2);
            let sub1 = sub.drop_first();
            assert(sub1.drop_first() =~= Seq::<u8>::empty());
            assert(le_val(sub1.drop_first()) == 0);
            assert(le_val(sub1) == sub1[0]);
            assert(sub1[0] == bytes@[1]);
            assert(sub[0] == b0);
            assert(le_val(sub) == v as nat);
            lemma_mod_multiples_vanish(64 * (bytes[1] as int), b0 as int, 4);
            assert(v as nat % 4 == b0 as nat % 4);
            assert(v as nat % 4 == 1);
            lemma_fundamental_div_mod(v as int, 4);
            assert(4 * (n as nat) + 1 == v as nat);
        }
        if n < 64 {
            proof {
                assert forall|n2: nat|
                    n2 < 0x1_0000_0000_0000_0000 implies !is_seq_prefix(
                    #[trigger] spec_compact(n2),
                    bytes@,
                ) by {
                    lemma_compact_shape(n2);
                    if is_seq_prefix(spec_compact(n2), bytes@) {
                        assert(spec_compact(n2)[0] == b0);
                        assert(compact_mode(n2) == 1);
                        assert(spec_compact(n2) =~= bytes@.subrange(0, 2));
                        assert(le_val(spec_compact(n2)) == 4 * n2 + 1);
                        assert(4 * n2 + 1 == v as nat);
                        assert(n2 >= 64);
                    }
                }
            }
            None
        } else {
            proof {
                lemma_compact_shape(n as nat);
                assert(compact_mode(n as nat) == 1);
                lemma_le_bytes_of_le_val(bytes@.subrange(0, 2));
                assert(spec_compact(n as nat) == le_bytes(4 * (n as nat) + 1, 2));
                assert(spec_compact(n as nat) =~= bytes@.subrange(0, 2));
            }
            Some((n, 2))
        }
    } else if mode == 2 {
        if blen < 4 {
            proof {
                assert forall|n: nat|
                    n < 0x1_0000_0000_0000_0000 implies !is_seq_prefix(
                    #[trigger] spec_compact(n),
                    bytes@,
                ) by {
                    lemma_compact_shape(n);
                    if is_seq_prefix(spec_compact(n), bytes@) {
                        assert(spec_compact(n)[0] == b0);
                        assert(compact_mode(n) == 2);
                        assert(spec_compact(n).len() == 4);
                    }
                }
            }
            return None;
        }
        let v: u64 = read_le(bytes, 0, 4);
        let n: u64 = v / 4;
        proof {
            let sub = bytes@.subrange(0, 4);
            assert(sub[0] == b0);
            assert(le_val(sub) == sub[0] + 256 * le_val(sub.drop_first()));
            lemma_mod_multiples_vanish(64 * (le_val(sub.drop_first()) as int), b0 as int, 4);
            assert(v as nat % 4 == b0 as nat % 4);
            lemma_fundamental_div_mod(v as int, 4);
            assert(4 * (n as nat) + 2 == v as nat);
            lemma_le_val_bound(sub);
            assert((v as nat) < pow256(4));
        }
        if n < 16384 {
            proof {
                assert forall|n2: nat|
                    n2 < 0x1_0000_0000_0000_0000 implies !is_seq_prefix(
                    #[trigger] spec_compact(n2),
                    bytes@,
                ) by {
                    lemma_compact_shape(n2);
                    if is_seq_prefix(spec_compact(n2), bytes@) {
                        assert(spec_compact(n2)[0] == b0);
                        assert(compact_mode(n2) == 2);
                        assert(spec_compact(n2) =~= bytes@.subrange(0, 4));
                        assert(le_val(spec_compact(n2)) == 4 * n2 + 2);
                        assert(4 * n2 + 2 == v as nat);
                        assert(n2 >= 16384);
                    }
                }
            }
            None
        } else {
            proof {
                lemma_compact_shape(n as nat);
                assert(compact_mode(n as nat) == 2);
                lemma_le_bytes_of_le_val(bytes@.subrange(0, 4));
                assert(spec_compact(n as nat) == le_bytes(4 * (n as nat) + 2, 4));
                assert(spec_compact(n as nat) =~= bytes@.subrange(0, 4));
            }
            Some((n, 4))
        }
    } else {
        let k: u8 = b0 / 4;
        proof {
            lemma_fundamental_div_mod(b0 as int, 4);
        }
        if k > 4 {
            proof {
                assert forall|n: nat|
                    n < 0x1_0000_0000_0000_0000 implies !is_seq_prefix(
                    #[trigger] spec_compact(n),
                    bytes@,
                ) by {
                    lemma_compact_shape(n);
                    if is_seq_prefix(spec_compact(n), bytes@) {
                        assert(spec_compact(n)[0] == b0);
                        assert(compact_mode(n) == 3);
                        assert(b0 as nat == 3 + 4 * (compact_big_len(n) - 4));
                        assert(compact_big_len(n) <= 8);
                        assert(b0 < 20);
                    }
                }
            }
            return None;
        }
        let m: usize = (k as usize) + 4;
        if blen < 1 + m {
            proof {
                assert forall|n: nat|
                    n < 0x1_0000_0000_0000_0000 implies !is_seq_prefix(
                    #[trigger] spec_compact(n),
                    bytes@,
                ) by {
                    lemma_compact_shape(n);
                    if is_seq_prefix(spec_compact(n), bytes@) {
                        assert(spec_compact(n)[0] == b0);
                        assert(compact_mode(n) == 3);
                        assert(b0 as nat == 3 + 4 * (compact_big_len(n) - 4));
                        assert(compact_big_len(n) == m as nat);
                        assert(spec_compact(n).len() == 1 + m);
                    }
                }
            }
            return None;
        }
        let v: u64 = read_le(bytes, 1, m);
        let mv: usize = big_len_of(v);
        if v < 0x4000_0000 || mv != m {
            proof {
                let sub = bytes@.subrange(1, (1 + m) as int);
                lemma_le_val_bound(sub);
                assert forall|n: nat|
                    n < 0x1_0000_0000_0000_0000 implies !is_seq_prefix(
                    #[trigger] spec_compact(n),
                    bytes@,
                ) by {
                    lemma_compact_shape(n);
                    if is_seq_prefix(spec_compact(n), bytes@) {
                        assert(spec_compact(n)[0] == b0);
                        assert(compact_mode(n) == 3);
                        assert(b0 as nat == 3 + 4 * (compact_big_len(n) - 4));
                        assert(compact_big_len(n) == m as nat);
                        assert(spec_compact(n).subrange(1, (1 + m) as int) =~= bytes@.subrange(
                            1,
                            (1 + m) as int,
                        ));
                        assert(le_bytes(n, m as nat) == sub);
                        lemma_le_val_of_le_bytes(n, m as nat);
                        assert(n == v as nat);
                        assert(n >= 0x4000_0000);
                        assert(compact_big_len(v as nat) == m as nat);
                    }
                }
            }
            None
        } else {
            proof {
                let sub = bytes@.subrange(1, (1 + m) as int);
                lemma_compact_shape(v as nat);
                assert(compact_mode(v as nat) == 3);
                assert(compact_big_len(v as nat) == m as nat);
                assert(b0 as nat == 3 + 4 * (m as nat - 4));
                lemma_le_bytes_of_le_val(sub);
                assert(le_bytes(v as nat, m as nat) == sub);
                assert(spec_compact(v as nat) =~= bytes@.subrange(0, (1 + m) as int));
            }
            Some((v, 1 + m))
        }
    }
}

/// The length of the compact encoding, over all values.
pub proof fn lemma_compact_len(n: nat)
    ensures
        spec_compact(n).len() == if n < 64 {
            1nat
        } else if n < 16384 {
            2nat
        } else if n < 0x4000_0000 {
            4nat
        } else {
            1 + compact_big_len(n)
        },
{
    if 64 <= n < 16384 {
        lemma_le_bytes_len(4 * n + 1, 2);
    } else if 16384 <= n < 0x4000_0000 {
        lemma_le_bytes_len(4 * n + 2, 4);
    } else if n >= 0x4000_0000 {
        lemma_le_bytes_len(n, compact_big_len(n));
    }
}

/// A longer value never gets a shorter compact prefix.
pub proof fn lemma_compact_len_monotone(a: nat, b: nat)
    requires
        a <= b,
    ensures
        spec_compact(a).len() <= spec_compact(b).len(),
{
    lemma_compact_len(a);
    lemma_compact_len(b);
}

/// The stored form of a URL string: the compact encoding of the byte length
/// of its UTF-8 form, followed by those bytes.
pub open spec fn spec_encode_url(s: Seq<char>) -> Seq<u8> {
    spec_compact(encode_utf8(s).len()) + encode_utf8(s)
}

/// Distinct strings have distinct stored forms.
pub proof fn lemma_encode_url_injective(s1: Seq<char>, s2: Seq<char>)
    requires
        spec_encode_url(s1) == spec_encode_url(s2),
    ensures
        s1 == s2,
{
    let b1 = encode_utf8(s1);
    let b2 = encode_utf8(s2);
    if b1.len() < b2.len() {
        lemma_compact_len_monotone(b1.len(), b2.len());
        assert(spec_compact(b1.len()).len() <= spec_compact(b2.len()).len());
        assert(spec_encode_url(s1).len() == spec_compact(b1.len()).len() + b1.len());
        assert(spec_encode_url(s2).len() == spec_compact(b2.len()).len() + b2.len());
        assert(spec_encode_url(s1).len() < spec_encode_url(s2).len());
    }
    if b2.len() < b1.len() {
        lemma_compact_len_monotone(b2.len(), b1.len());
        assert(spec_compact(b2.len()).len() <= spec_compact(b1.len()).len());
        assert(spec_encode_url(s2).len() == spec_compact(b2.len()).len() + b2.len());
        assert(spec_encode_url(s1).len() == spec_compact(b1.len()).len() + b1.len());
        assert(spec_encode_url(s2).len() < spec_encode_url(s1).len());
    }
    assert(b1.len() == b2.len());
    let clen = spec_compact(b1.len()).len() as int;
    assert(b1 =~= spec_encode_url(s1).subrange(clen, spec_encode_url(s1).len() as int));
    assert(b2 =~= spec_encode_url(s2).subrange(clen, spec_encode_url(s2).len() as int));
    encode_utf8_decode_utf8(s1);
    encode_utf8_decode_utf8(s2);
}

/// What a stored value holds, read back: the unique string whose stored form
/// the bytes are, if there is one.
pub open spec fn spec_decode_url(bytes: Seq<u8>) -> Option<Seq<char>> {
    if exists|s: Seq<char>| bytes == spec_encode_url(s) {
        Some(choose|s: Seq<char>| bytes == spec_encode_url(s))
    } else {
        None
    }
}

/// Encoding then decoding a URL string gives the string back, for every
/// string, the empty one and non-ASCII ones included.
pub proof fn lemma_url_round_trip(s: Seq<char>)
    ensures
        spec_decode_url(spec_encode_url(s)) == Some(s),
{
    let b = spec_encode_url(s);
    assert(b == spec_encode_url(s));
    let t = choose|t: Seq<char>| b == spec_encode_url(t);
    lemma_encode_url_injective(t, s);
}

/// Relies on `String::from_utf8` of std: it succeeds exactly on valid UTF-8
/// input and returns the character sequence the bytes encode.
#[verifier::external_body]
fn string_from_utf8(bytes: Vec<u8>) -> (r: Option<String>)
    ensures
        (match r {
            Some(s) => valid_utf8(bytes@) && s@ == decode_utf8(bytes@),
            None => !valid_utf8(bytes@),
        }),
{
    String::from_utf8(bytes).ok()
}

/// Encodes a URL string into its stored form.  Pure and total: defined for
/// every string.
pub fn encode_url(url: &str) -> (r: Vec<u8>)
    ensures
        r@ == spec_encode_url(url@),
{
    let mut bytes = url.as_bytes_vec();
    let mut out = encode_compact(bytes.len() as u64);
    out.append(&mut bytes);
    out
}

/// The storage value configured for a chain's RPC URL: the stored form of the
/// URL string.
pub fn url_to_value(url: &str) -> (r: Vec<u8>)
    ensures
        r@ == spec_encode_url(url@),
{
    encode_url(url)
}

/// Decodes a stored value back into the URL string, failing exactly when the
/// bytes are not the stored form of any string (inconsistent length prefix,
/// trailing or missing bytes, or payload that is not UTF-8).
pub fn decode_url(bytes: &[u8]) -> (r: Result<String, AdminError>)
    ensures
        (match r {
            Ok(u) => spec_decode_url(bytes@) == Some(u@) && bytes@ == spec_encode_url(u@),
            Err(e) => spec_decode_url(bytes@) is None && e == AdminError::Decode,
        }),
{
    let blen: usize = bytes.len();
    match decode_compact(bytes) {
        None => {
            proof {
                assert forall|s: Seq<char>| bytes@ != spec_encode_url(s) by {
                    if bytes@ == spec_encode_url(s) {
                        let lu = encode_utf8(s).len();
                        lemma_compact_len(lu);
                        assert(lu < 0x1_0000_0000_0000_0000);
                        assert(bytes@.subrange(0, spec_compact(lu).len() as int) =~= spec_compact(
                            lu,
                        ));
                        assert(is_seq_prefix(spec_compact(lu), bytes@));
                    }
                }
            }
            Err(AdminError::Decode)
        },
        Some((n, used)) => {
            if (blen - used) as u64 != n {
                proof {
                    assert forall|s: Seq<char>| bytes@ != spec_encode_url(s) by {
                        if bytes@ == spec_encode_url(s) {
                            let lu = encode_utf8(s).len();
                            lemma_compact_len(lu);
                            assert(lu < 0x1_0000_0000_0000_0000);
                            assert(bytes@.subrange(0, spec_compact(lu).len() as int)
                                =~= spec_compact(lu));
                            assert(is_seq_prefix(spec_compact(lu), bytes@));
                            assert(is_seq_prefix(spec_compact(n as nat), bytes@));
                            lemma_compact_prefix_deterministic(lu, n as nat, bytes@);
                            assert(bytes@.len() == spec_compact(lu).len() + lu);
                        }
                    }
                }
                Err(AdminError::Decode)
            } else {
                let rest = slice_to_vec(slice_subrange(bytes, used, blen));
                match string_from_utf8(rest) {
                    Some(u) => {
                        proof {
                            assert(valid_utf8(bytes@.subrange(used as int, blen as int)));
                            decode_utf8_encode_utf8(bytes@.subrange(used as int, blen as int));
                            assert(encode_utf8(u@) == bytes@.subrange(used as int, blen as int));
                            assert(encode_utf8(u@).len() == n as nat);
                            assert(bytes@ =~= spec_compact(n as nat) + encode_utf8(u@));
                            assert(bytes@ == spec_encode_url(u@));
                            lemma_url_round_trip(u@);
                        }
                        Ok(u)
                    },
                    None => {
                        proof {
                            assert forall|s: Seq<char>| bytes@ != spec_encode_url(s) by {
                                if bytes@ == spec_encode_url(s) {
                                    let lu = encode_utf8(s).len();
                                    lemma_compact_len(lu);
                                    assert(lu < 0x1_0000_0000_0000_0000);
                                    assert(bytes@.subrange(0, spec_compact(lu).len() as int)
                                        =~= spec_compact(lu));
                                    assert(is_seq_prefix(spec_compact(lu), bytes@));
                                    assert(is_seq_prefix(spec_compact(n as nat), bytes@));
                                    lemma_compact_prefix_deterministic(lu, n as nat, bytes@);
                                    assert(bytes@.subrange(used as int, blen as int)
                                        =~= encode_utf8(s));
                                    encode_utf8_valid_utf8(s);
                                }
                            }
                        }
                        Err(AdminError::Decode)
                    },
                }
            }
        },
    }
}

/// Decodes the offchain nonce value: exactly four little-endian bytes carry a
/// `u32`; any other length is a decode failure.
pub fn decode_u32(bytes: &[u8]) -> (r: Result<u32, AdminError>)
    ensures
        (match r {
            Ok(v) => bytes@ == le_bytes(v as nat, 4),
            Err(e) => bytes@.len() != 4 && e == AdminError::Decode,
        }),
{
    let blen: usize = bytes.len();
    if blen != 4 {
        Err(AdminError::Decode)
    } else {
        let v = read_le(bytes, 0, 4);
        proof {
            lemma_pow256_values();
            lemma_le_val_bound(bytes@.subrange(0, 4));
            lemma_le_bytes_of_le_val(bytes@.subrange(0, 4));
            assert(bytes@.subrange(0, 4) =~= bytes@);
        }
        Ok(v as u32)
    }
}

} // verus!
