//! Hex text parsing for public keys supplied on the command line.

use vstd::prelude::*;
use vstd::string::StrSliceExecFns;
use crate::error::AdminError;

verus! {

/// `c` is a hexadecimal digit, either case.
pub open spec fn is_hex_digit(c: char) -> bool {
    (48 <= (c as u32) && (c as u32) <= 57) || (97 <= (c as u32) && (c as u32) <= 102) || (65 <= (
    c as u32) && (c as u32) <= 70)
}

/// The value of a hexadecimal digit character; zero off the hex range.
pub open spec fn hex_val(c: char) -> nat {
    if 48 <= (c as u32) && (c as u32) <= 57 {
        ((c as u32) - 48) as nat
    } else if 97 <= (c as u32) && (c as u32) <= 102 {
        ((c as u32) - 87) as nat
    } else if 65 <= (c as u32) && (c as u32) <= 70 {
        ((c as u32) - 55) as nat
    } else {
        0
    }
}

/// Every character of `s` is a hexadecimal digit.
pub open spec fn all_hex(s: Seq<char>) -> bool {
    forall|i: int| 0 <= i < s.len() ==> #[trigger] is_hex_digit(s[i])
}

/// The bytes denoted by an even-length hex digit string, two digits a byte.
pub open spec fn spec_hex_bytes(s: Seq<char>) -> Seq<u8>
    decreases s.len(),
{
    if s.len() < 2 {
        Seq::empty()
    } else {
        seq![(hex_val(s[0]) * 16 + hex_val(s[1])) as u8] + spec_hex_bytes(s.skip(2))
    }
}

/// The digits of `s` after an optional `0x` prefix.
pub open spec fn strip_0x(s: Seq<char>) -> Seq<char> {
    if s.len() >= 2 && s[0] == '0' && s[1] == 'x' {
        s.skip(2)
    } else {
        s
    }
}

/// `s` is acceptable hex text: after the optional `0x` prefix, an even number
/// of hex digits (possibly none).
pub open spec fn spec_hex_ok(s: Seq<char>) -> bool {
    strip_0x(s).len() % 2 == 0 && all_hex(strip_0x(s))
}

/// The hexadecimal digit's value, or `None` off the hex range.
fn hex_digit_val(c: char) -> (r: Option<u8>)
    ensures
        (match r {
            Some(v) => is_hex_digit(c) && v as nat == hex_val(c) && v < 16,
            None => !is_hex_digit(c),
        }),
{
    let cu = c as u32;
    if 48 <= cu && cu <= 57 {
        Some((cu - 48) as u8)
    } else if 97 <= cu && cu <= 102 {
        Some((cu - 87) as u8)
    } else if 65 <= cu && cu <= 70 {
        Some((cu - 55) as u8)
    } else {
        None
    }
}

/// Decodes hex text into bytes, tolerating an optional `0x` prefix.
///
/// Accepts both `0x`-prefixed and bare hex, upper or lower case; rejects
/// odd-length or non-hex input with a parse error, before any RPC call would
/// be made.
pub fn decode_hex(s: &str) -> (r: Result<Vec<u8>, AdminError>)
    ensures
        (match r {
            Ok(b) => spec_hex_ok(s@) && b@ == spec_hex_bytes(strip_0x(s@)),
            Err(e) => !spec_hex_ok(s@) && e == AdminError::Parse,
        }),
{
    let n = s.unicode_len();
    let mut start: usize = 0;
    if n >= 2 {
        let c0 = s.get_char(0);
        let c1 = s.get_char(1);
        proof {
            vstd::utf8::char_u32_cast(c0, c0 as u32);
            vstd::utf8::char_u32_cast(c1, c1 as u32);
            vstd::utf8::char_u32_cast('0', '0' as u32);
            vstd::utf8::char_u32_cast('x', 'x' as u32);
        }
        if c0 as u32 == 48 && c1 as u32 == 120 {
            start = 2;
        }
    }
    let ghost t = strip_0x(s@);
    proof {
        assert(t =~= s@.skip(start as int));
    }
    if (n - start) % 2 != 0 {
        proof {
            assert(t.len() % 2 != 0);
        }
        return Err(AdminError::Parse);
    }
    let mut out: Vec<u8> = Vec::new();
    let mut i: usize = start;
    proof {
        assert(t.skip(0) =~= t);
        assert(Seq::<u8>::empty() + spec_hex_bytes(t) =~= spec_hex_bytes(t));
    }
    while i < n
        invariant
            start <= i <= n,
            n == s@.len(),
            t == s@.skip(start as int),
            t == strip_0x(s@),
            (i - start) % 2 == 0,
            (n - start) % 2 == 0,
            all_hex(t.subrange(0, i - start)),
            spec_hex_bytes(t) == out@ + spec_hex_bytes(t.skip(i - start)),
        decreases n - i,
    {
        let hi = match hex_digit_val(s.get_char(i)) {
            Some(v) => v,
            None => {
                proof {
                    assert(t[i - start] == s@[i as int]);
                    assert(!is_hex_digit(strip_0x(s@)[i - start]));
                    assert(!all_hex(strip_0x(s@)));
                }
                return Err(AdminError::Parse);
            },
        };
        proof {
            assert(i + 1 < n);
        }
        let lo = match hex_digit_val(s.get_char(i + 1)) {
            Some(v) => v,
            None => {
                proof {
                    assert(t[i + 1 - start] == s@[i + 1]);
                    assert(!is_hex_digit(strip_0x(s@)[i + 1 - start]));
                    assert(!all_hex(strip_0x(s@)));
                }
                return Err(AdminError::Parse);
            },
        };
        proof {
            let rest = t.skip(i - start);
            assert(rest.len() >= 2);
            assert(rest[0] == s@[i as int]);
            assert(rest[1] == s@[i + 1]);
            assert(rest.skip(2) =~= t.skip(i + 2 - start));
            assert(spec_hex_bytes(rest) == seq![(hex_val(rest[0]) * 16 + hex_val(rest[1])) as u8]
                + spec_hex_bytes(rest.skip(2)));
            assert(t.subrange(0, i + 2 - start) =~= t.subrange(0, i - start) + seq![
                s@[i as int],
                s@[i + 1],
            ]);
        }
        out.push(hi * 16 + lo);
        i = i + 2;
    }
    proof {
        assert(t.subrange(0, i - start) =~= t);
        assert(t.skip(i - start) =~= Seq::<char>::empty());
        assert(spec_hex_bytes(t.skip(i - start)) =~= Seq::<u8>::empty());
    }
    Ok(out)
}

} // verus!
