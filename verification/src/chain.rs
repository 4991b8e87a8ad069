//! Chain identifiers: a closed set of named chains plus a numbered EVM chain,
//! with case-insensitive text parsing, formatting, and storage-key derivation.

use vstd::prelude::*;
use vstd::string::{StrSliceExecFns, StringExecFns};
use vstd::utf8::{encode_utf8, is_ascii_chars, is_ascii_chars_encode_utf8};
use crate::error::AdminError;

verus! {

/// A blockchain whose RPC endpoint the node's offchain worker can use.
///
/// The named chains form a closed enumeration; `Evm` carries an open-ended
/// numeric chain id.  Values are immutable and round-trip through their text
/// form (see `lemma_chain_round_trip`).
#[derive(Clone, Copy, Debug, PartialEq, Eq, Structural)]
pub enum Blockchain {
    Ethereum,
    Rinkeby,
    Luniverse,
    Bitcoin,
    Evm(u64),
}

/// Character `a` equals lowercase character `lo` up to ASCII case.
pub open spec fn char_matches_ci(a: char, lo: char) -> bool {
    a == lo || (65 <= (a as u32) && (a as u32) <= 90 && (a as u32) + 32 == (lo as u32))
}

/// `s` equals the all-lowercase text `lo` up to ASCII case.
pub open spec fn matches_ci(s: Seq<char>, lo: Seq<char>) -> bool {
    s.len() == lo.len() && forall|i: int|
        0 <= i < s.len() ==> #[trigger] char_matches_ci(s[i], lo[i])
}

/// The decimal digit character for a value below ten.
pub open spec fn digit_char(d: nat) -> char {
    if d == 0 {
        '0'
    } else if d == 1 {
        '1'
    } else if d == 2 {
        '2'
    } else if d == 3 {
        '3'
    } else if d == 4 {
        '4'
    } else if d == 5 {
        '5'
    } else if d == 6 {
        '6'
    } else if d == 7 {
        '7'
    } else if d == 8 {
        '8'
    } else {
        '9'
    }
}

/// `c` is a decimal digit character.
pub open spec fn is_digit(c: char) -> bool {
    48 <= (c as u32) && (c as u32) <= 57
}

/// The value of a decimal digit character; zero off the digit range.
pub open spec fn digit_val(c: char) -> nat {
    if is_digit(c) {
        ((c as u32) - 48) as nat
    } else {
        0
    }
}

/// Every character of `s` is a decimal digit.
pub open spec fn all_digits(s: Seq<char>) -> bool {
    forall|i: int| 0 <= i < s.len() ==> #[trigger] is_digit(s[i])
}

/// The decimal text of `n`, most significant digit first, no leading zeros.
pub open spec fn spec_digits(n: nat) -> Seq<char>
    decreases n,
{
    if n < 10 {
        seq![digit_char(n)]
    } else {
        spec_digits(n / 10) + seq![digit_char(n % 10)]
    }
}

/// The numeric value of a digit string, most significant digit first.
pub open spec fn digits_val(s: Seq<char>) -> nat
    decreases s.len(),
{
    if s.len() == 0 {
        0
    } else {
        digits_val(s.drop_last()) * 10 + digit_val(s.last())
    }
}

proof fn lemma_digit_char_val(d: nat)
    requires
        d < 10,
    ensures
        is_digit(digit_char(d)),
        digit_val(digit_char(d)) == d,
{
}

/// Formatting a number and reading the digits back is the identity.
pub proof fn lemma_digits_round_trip(n: nat)
    ensures
        spec_digits(n).len() >= 1,
        all_digits(spec_digits(n)),
        digits_val(spec_digits(n)) == n,
    decreases n,
{
    if n < 10 {
        lemma_digit_char_val(n);
        let s = spec_digits(n);
        assert(s.drop_last() =~= Seq::<char>::empty());
        assert(digits_val(s) == digits_val(s.drop_last()) * 10 + digit_val(s.last()));
    } else {
        lemma_digits_round_trip(n / 10);
        lemma_digit_char_val(n % 10);
        let s = spec_digits(n);
        assert(s.drop_last() =~= spec_digits(n / 10));
        assert(s.last() == digit_char(n % 10));
        assert(digits_val(s) == (n / 10) * 10 + n % 10);
        vstd::arithmetic::div_mod::lemma_fundamental_div_mod(n as int, 10);
    }
}

/// A value never shrinks when more digits are appended on the right.
proof fn lemma_digits_val_prefix(s: Seq<char>, k: int)
    requires
        0 <= k <= s.len(),
    ensures
        digits_val(s) >= digits_val(s.subrange(0, k)),
    decreases s.len() - k,
{
    if k < s.len() {
        let t = s.subrange(0, s.len() - 1);
        assert(t.subrange(0, k) =~= s.subrange(0, k));
        lemma_digits_val_prefix(t, k);
        assert(s.drop_last() =~= t);
        assert(digits_val(s) == digits_val(t) * 10 + digit_val(s.last()));
    } else {
        assert(s.subrange(0, k) =~= s);
    }
}

/// The text form of a chain identifier: the chain's name, or `evm-<id>`.
pub open spec fn spec_format(c: Blockchain) -> Seq<char> {
    match c {
        Blockchain::Ethereum => "Ethereum"@,
        Blockchain::Rinkeby => "Rinkeby"@,
        Blockchain::Luniverse => "Luniverse"@,
        Blockchain::Bitcoin => "Bitcoin"@,
        Blockchain::Evm(id) => "evm-"@ + spec_digits(id as nat),
    }
}

/// The all-lowercase text of a chain identifier, as used in storage keys.
pub open spec fn spec_lower_name(c: Blockchain) -> Seq<char> {
    match c {
        Blockchain::Ethereum => "ethereum"@,
        Blockchain::Rinkeby => "rinkeby"@,
        Blockchain::Luniverse => "luniverse"@,
        Blockchain::Bitcoin => "bitcoin"@,
        Blockchain::Evm(id) => "evm-"@ + spec_digits(id as nat),
    }
}

/// Which chain identifier, if any, a piece of text denotes, up to ASCII case:
/// one of the four names, or `evm-` followed by decimal digits that fit an
/// unsigned 64-bit value.
pub open spec fn spec_parse(s: Seq<char>) -> Option<Blockchain> {
    if matches_ci(s, "ethereum"@) {
        Some(Blockchain::Ethereum)
    } else if matches_ci(s, "rinkeby"@) {
        Some(Blockchain::Rinkeby)
    } else if matches_ci(s, "luniverse"@) {
        Some(Blockchain::Luniverse)
    } else if matches_ci(s, "bitcoin"@) {
        Some(Blockchain::Bitcoin)
    } else if s.len() > 4 && matches_ci(s.subrange(0, 4), "evm-"@) && all_digits(s.skip(4))
        && digits_val(s.skip(4)) <= u64::MAX {
        Some(Blockchain::Evm(digits_val(s.skip(4)) as u64))
    } else {
        None
    }
}

/// The bytes of an all-ASCII character sequence, one byte per character.
pub open spec fn ascii_bytes(s: Seq<char>) -> Seq<u8> {
    Seq::new(s.len(), |i: int| s[i] as u8)
}

/// The storage key under which a chain's RPC URL is configured: the
/// lowercase chain name followed by `-rpc-uri`, as raw bytes with no length
/// prefix.  Pure and total over every chain identifier.
pub open spec fn spec_chain_key(c: Blockchain) -> Seq<u8> {
    ascii_bytes(spec_lower_name(c) + "-rpc-uri"@)
}

/// Compares `s` against all-lowercase `lo`, ASCII-case-insensitively.
fn eq_ci(s: &str, lo: &str) -> (b: bool)
    ensures
        b == matches_ci(s@, lo@),
{
    let n = s.unicode_len();
    let m = lo.unicode_len();
    if n != m {
        return false;
    }
    let mut i: usize = 0;
    while i < n
        invariant
            i <= n,
            n == s@.len(),
            n == lo@.len(),
            forall|j: int| 0 <= j < i ==> #[trigger] char_matches_ci(s@[j], lo@[j]),
        decreases n - i,
    {
        let a = s.get_char(i);
        let l = lo.get_char(i);
        let au = a as u32;
        let lu = l as u32;
        let ok = au == lu || (65 <= au && au <= 90 && au + 32 == lu);
        proof {
            vstd::utf8::char_u32_cast(a, au);
            vstd::utf8::char_u32_cast(l, lu);
        }
        if !ok {
            proof {
                assert(!char_matches_ci(s@[i as int], lo@[i as int]));
            }
            return false;
        }
        i = i + 1;
    }
    true
}

/// The decimal digit as a one-character string.
fn digit_str(d: u64) -> (r: &'static str)
    requires
        d < 10,
    ensures
        r@ == seq![digit_char(d as nat)],
{
    proof {
        reveal_strlit("0");
        reveal_strlit("1");
        reveal_strlit("2");
        reveal_strlit("3");
        reveal_strlit("4");
        reveal_strlit("5");
        reveal_strlit("6");
        reveal_strlit("7");
        reveal_strlit("8");
        reveal_strlit("9");
    }
    let r = match d {
        0 => "0",
        1 => "1",
        2 => "2",
        3 => "3",
        4 => "4",
        5 => "5",
        6 => "6",
        7 => "7",
        8 => "8",
        _ => "9",
    };
    proof {
        assert(r@ =~= seq![digit_char(d as nat)]);
    }
    r
}

/// Renders `n` in decimal, most significant digit first.
pub fn u64_to_text(n: u64) -> (r: String)
    ensures
        r@ == spec_digits(n as nat),
    decreases n,
{
    if n < 10 {
        String::from_str(digit_str(n))
    } else {
        let mut s = u64_to_text(n / 10);
        s.append(digit_str(n % 10));
        proof {
            assert(s@ =~= spec_digits(n as nat));
        }
        s
    }
}

/// Reads the characters of `s` from position `from` on as a decimal number.
///
/// Returns the value exactly when every remaining character is a digit, at
/// least one remains, and the value fits an unsigned 64-bit integer.
fn parse_u64_digits(s: &str, from: usize) -> (r: Option<u64>)
    requires
        from <= s@.len(),
    ensures
        (match r {
            Some(v) => {
                &&& s@.skip(from as int).len() >= 1
                &&& all_digits(s@.skip(from as int))
                &&& digits_val(s@.skip(from as int)) == v as nat
            },
            None => s@.skip(from as int).len() == 0 || !all_digits(s@.skip(from as int))
                || digits_val(s@.skip(from as int)) > u64::MAX,
        }),
{
    let n = s.unicode_len();
    if from >= n {
        return None;
    }
    let ghost tail = s@.skip(from as int);
    let mut acc: u64 = 0;
    let mut i: usize = from;
    while i < n
        invariant
            from <= i <= n,
            n == s@.len(),
            from < n,
            tail == s@.skip(from as int),
            acc as nat == digits_val(s@.subrange(from as int, i as int)),
            all_digits(s@.subrange(from as int, i as int)),
        decreases n - i,
    {
        let c = s.get_char(i);
        let cu = c as u32;
        if cu < 48 || cu > 57 {
            proof {
                assert(tail[i - from] == s@[i as int]);
                assert(!is_digit(tail[i - from]));
            }
            return None;
        }
        let d = (cu - 48) as u64;
        proof {
            assert(is_digit(s@[i as int]));
            assert(digit_val(s@[i as int]) == d as nat);
            let pre = s@.subrange(from as int, i as int);
            let ext = s@.subrange(from as int, i as int + 1);
            assert(ext.drop_last() =~= pre);
            assert(ext.last() == s@[i as int]);
            assert(digits_val(ext) == (acc as nat) * 10 + d as nat);
            vstd::arithmetic::div_mod::lemma_fundamental_div_mod((u64::MAX - d) as int, 10);
        }
        if acc > (u64::MAX - d) / 10 {
            proof {
                let ext = s@.subrange(from as int, i as int + 1);
                assert((acc as nat) * 10 + (d as nat) > u64::MAX);
                assert(ext =~= tail.subrange(0, i + 1 - from));
                lemma_digits_val_prefix(tail, i + 1 - from);
            }
            return None;
        }
        acc = acc * 10 + d;
        i = i + 1;
    }
    proof {
        assert(s@.subrange(from as int, n as int) =~= tail);
    }
    Some(acc)
}

impl Blockchain {
    /// The chain's text form: its name, or `evm-` followed by the chain id.
    pub fn to_text(&self) -> (r: String)
        ensures
            r@ == spec_format(*self),
    {
        match self {
            Blockchain::Ethereum => String::from_str("Ethereum"),
            Blockchain::Rinkeby => String::from_str("Rinkeby"),
            Blockchain::Luniverse => String::from_str("Luniverse"),
            Blockchain::Bitcoin => String::from_str("Bitcoin"),
            Blockchain::Evm(id) => {
                let mut s = String::from_str("evm-");
                let digits = u64_to_text(*id);
                s.append(digits.as_str());
                s
            },
        }
    }

    /// The chain's all-lowercase name, as used in its storage key.
    pub fn lower_name(&self) -> (r: String)
        ensures
            r@ == spec_lower_name(*self),
    {
        match self {
            Blockchain::Ethereum => String::from_str("ethereum"),
            Blockchain::Rinkeby => String::from_str("rinkeby"),
            Blockchain::Luniverse => String::from_str("luniverse"),
            Blockchain::Bitcoin => String::from_str("bitcoin"),
            Blockchain::Evm(id) => {
                let mut s = String::from_str("evm-");
                let digits = u64_to_text(*id);
                s.append(digits.as_str());
                s
            },
        }
    }

    /// Reads a chain identifier from text, ASCII-case-insensitively: one of
    /// the four names, or `evm-<decimal id>`.  Anything else is a parse
    /// error, reported before any RPC call would be made.
    pub fn parse(s: &str) -> (r: Result<Blockchain, AdminError>)
        ensures
            (match spec_parse(s@) {
                Some(c) => r == Ok::<Blockchain, AdminError>(c),
                None => r == Err::<Blockchain, AdminError>(AdminError::Parse),
            }),
    {
        if eq_ci(s, "ethereum") {
            Ok(Blockchain::Ethereum)
        } else if eq_ci(s, "rinkeby") {
            Ok(Blockchain::Rinkeby)
        } else if eq_ci(s, "luniverse") {
            Ok(Blockchain::Luniverse)
        } else if eq_ci(s, "bitcoin") {
            Ok(Blockchain::Bitcoin)
        } else {
            let n = s.unicode_len();
            if n <= 4 {
                proof {
                    assert(spec_parse(s@) is None);
                }
                Err(AdminError::Parse)
            } else {
                let head = s.substring_char(0, 4);
                if !eq_ci(head, "evm-") {
                    Err(AdminError::Parse)
                } else {
                    match parse_u64_digits(s, 4) {
                        Some(v) => Ok(Blockchain::Evm(v)),
                        None => Err(AdminError::Parse),
                    }
                }
            }
        }
    }

    /// The storage key for the chain's configured RPC URL: the lowercase
    /// chain name followed by `-rpc-uri`, as raw bytes.  Deterministic: the
    /// result depends on the chain identifier alone.
    pub fn to_key(&self) -> (r: Vec<u8>)
        ensures
            r@ == spec_chain_key(*self),
    {
        let mut text = self.lower_name();
        text.append("-rpc-uri");
        proof {
            lemma_lower_name_ascii(*self);
            reveal_strlit("-rpc-uri");
            assert(is_ascii_chars("-rpc-uri"@)) by {
                assert(forall|i: int|
                    0 <= i < "-rpc-uri"@.len() ==> '\0' <= #[trigger] "-rpc-uri"@[i]
                        <= '\u{7f}');
            }
            assert(is_ascii_chars(text@)) by {
                assert(forall|i: int|
                    0 <= i < text@.len() ==> '\0' <= #[trigger] text@[i] <= '\u{7f}');
            }
            is_ascii_chars_encode_utf8(text@);
        }
        let r = text.as_str().as_bytes_vec();
        proof {
            assert(r@ =~= spec_chain_key(*self));
        }
        r
    }
}

/// Text always matches itself, case-insensitively.
proof fn lemma_matches_ci_refl(s: Seq<char>)
    ensures
        matches_ci(s, s),
{
    assert forall|i: int| 0 <= i < s.len() implies #[trigger] char_matches_ci(s[i], s[i]) by {}
}

/// Formatting a chain identifier and parsing the text back gives the same
/// identifier, for every chain, EVM chain ids over the whole unsigned 64-bit
/// range included.
pub proof fn lemma_chain_round_trip(c: Blockchain)
    ensures
        spec_parse(spec_format(c)) == Some(c),
{
    reveal_strlit("Ethereum");
    reveal_strlit("ethereum");
    reveal_strlit("Rinkeby");
    reveal_strlit("rinkeby");
    reveal_strlit("Luniverse");
    reveal_strlit("luniverse");
    reveal_strlit("Bitcoin");
    reveal_strlit("bitcoin");
    reveal_strlit("evm-");
    let s = spec_format(c);
    match c {
        Blockchain::Ethereum => {
            assert(matches_ci(s, "ethereum"@)) by {
                assert forall|i: int| 0 <= i < s.len() implies #[trigger] char_matches_ci(
                    s[i],
                    "ethereum"@[i],
                ) by {}
            }
        },
        Blockchain::Rinkeby => {
            assert(!matches_ci(s, "ethereum"@));
            assert(matches_ci(s, "rinkeby"@)) by {
                assert forall|i: int| 0 <= i < s.len() implies #[trigger] char_matches_ci(
                    s[i],
                    "rinkeby"@[i],
                ) by {}
            }
        },
        Blockchain::Luniverse => {
            assert(!matches_ci(s, "ethereum"@));
            assert(!matches_ci(s, "rinkeby"@));
            assert(matches_ci(s, "luniverse"@)) by {
                assert forall|i: int| 0 <= i < s.len() implies #[trigger] char_matches_ci(
                    s[i],
                    "luniverse"@[i],
                ) by {}
            }
        },
        Blockchain::Bitcoin => {
            assert(!matches_ci(s, "ethereum"@));
            assert(!char_matches_ci(s[0], "rinkeby"@[0]));
            assert(!matches_ci(s, "rinkeby"@));
            assert(!matches_ci(s, "luniverse"@));
            assert(matches_ci(s, "bitcoin"@)) by {
                assert forall|i: int| 0 <= i < s.len() implies #[trigger] char_matches_ci(
                    s[i],
                    "bitcoin"@[i],
                ) by {}
            }
        },
        Blockchain::Evm(id) => {
            lemma_digits_round_trip(id as nat);
            assert(s.len() >= 5);
            assert(s[0] == 'e');
            assert(s[1] == 'v');
            assert(!char_matches_ci(s[1], "ethereum"@[1]));
            assert(!matches_ci(s, "ethereum"@));
            assert(!char_matches_ci(s[0], "rinkeby"@[0]));
            assert(!matches_ci(s, "rinkeby"@));
            assert(!char_matches_ci(s[0], "luniverse"@[0]));
            assert(!matches_ci(s, "luniverse"@));
            assert(!char_matches_ci(s[0], "bitcoin"@[0]));
            assert(!matches_ci(s, "bitcoin"@));
            assert(s.subrange(0, 4) =~= "evm-"@);
            lemma_matches_ci_refl("evm-"@);
            assert(s.skip(4) =~= spec_digits(id as nat));
            assert(digits_val(s.skip(4)) == id as nat);
        },
    }
}

/// No two of the enumerated chains share a storage key: the key derivation
/// is injective over the named chains.
pub proof fn lemma_chain_key_injective(a: Blockchain, b: Blockchain)
    requires
        !(a is Evm),
        !(b is Evm),
        a != b,
    ensures
        spec_chain_key(a) != spec_chain_key(b),
{
    reveal_strlit("ethereum");
    reveal_strlit("rinkeby");
    reveal_strlit("luniverse");
    reveal_strlit("bitcoin");
    lemma_chain_key_first_byte(a);
    lemma_chain_key_first_byte(b);
}

/// The first byte of a named chain's storage key is the first letter of its
/// lowercase name.
proof fn lemma_chain_key_first_byte(c: Blockchain)
    requires
        !(c is Evm),
    ensures
        spec_chain_key(c).len() >= 1,
        c is Ethereum ==> spec_chain_key(c)[0] == 'e' as u8,
        c is Rinkeby ==> spec_chain_key(c)[0] == 'r' as u8,
        c is Luniverse ==> spec_chain_key(c)[0] == 'l' as u8,
        c is Bitcoin ==> spec_chain_key(c)[0] == 'b' as u8,
{
    reveal_strlit("ethereum");
    reveal_strlit("rinkeby");
    reveal_strlit("luniverse");
    reveal_strlit("bitcoin");
    let text = spec_lower_name(c) + "-rpc-uri"@;
    assert(text[0] == spec_lower_name(c)[0]);
}

/// Every lowercase chain name is ASCII text.
proof fn lemma_lower_name_ascii(c: Blockchain)
    ensures
        is_ascii_chars(spec_lower_name(c)),
{
    reveal_strlit("ethereum");
    reveal_strlit("rinkeby");
    reveal_strlit("luniverse");
    reveal_strlit("bitcoin");
    reveal_strlit("evm-");
    match c {
        Blockchain::Evm(id) => {
            lemma_digits_round_trip(id as nat);
            let s = spec_lower_name(c);
            assert forall|i: int| 0 <= i < s.len() implies '\0' <= #[trigger] s[i] <= '\u{7f}' by {
                if i >= 4 {
                    assert(is_digit(spec_digits(id as nat)[i - 4]));
                    vstd::utf8::char_u32_cast(s[i], s[i] as u32);
                }
            }
        },
        _ => {
            let s = spec_lower_name(c);
            assert(forall|i: int| 0 <= i < s.len() ==> '\0' <= #[trigger] s[i] <= '\u{7f}');
        },
    }
}

} // verus!
