//! Verified decimal and hexadecimal codecs for the small numbers the proxy
//! frames: `Content-Length` values, chunk sizes, and the identifiers shown by
//! the terminal front end.

use vstd::prelude::*;

verus! {

/// The ASCII byte of a single decimal digit.
pub open spec fn dec_digit(d: nat) -> u8
    recommends
        d < 10,
{
    (48 + d) as u8
}

/// The canonical decimal representation of `n`, most significant digit first,
/// with no leading zeroes (`0` is written as one digit).
pub open spec fn dec_bytes(n: nat) -> Seq<u8>
    decreases n,
{
    if n < 10 {
        seq![dec_digit(n)]
    } else {
        dec_bytes(n / 10).push(dec_digit(n % 10))
    }
}

/// The decimal representation of `n` as characters, for display.
pub open spec fn dec_chars(n: nat) -> Seq<char>
    decreases n,
{
    if n < 10 {
        seq![dec_digit(n) as char]
    } else {
        dec_chars(n / 10).push(dec_digit(n % 10) as char)
    }
}

/// `s` is a non-empty run of decimal digit bytes.
pub open spec fn is_dec_bytes(s: Seq<u8>) -> bool {
    s.len() > 0 && forall|i: int| 0 <= i < s.len() ==> 48 <= #[trigger] s[i] <= 57
}

/// The number the digit run `s` denotes (leading zeroes permitted).
pub open spec fn dec_value(s: Seq<u8>) -> nat
    decreases s.len(),
{
    if s.len() == 0 {
        0
    } else {
        dec_value(s.drop_last()) * 10 + (if 48 <= s.last() <= 57 {
            (s.last() - 48) as nat
        } else {
            0
        })
    }
}

/// Reading back the canonical decimal representation yields the number itself.
pub proof fn lemma_dec_round_trip(n: nat)
    ensures
        is_dec_bytes(dec_bytes(n)),
        dec_value(dec_bytes(n)) == n,
    decreases n,
{
    if n < 10 {
        let s = dec_bytes(n);
        assert(s =~= seq![dec_digit(n)]);
        assert(s.drop_last() =~= Seq::<u8>::empty());
        assert(dec_value(s.drop_last()) == 0);
        assert(s.last() == dec_digit(n));
        assert(dec_value(s) == dec_value(s.drop_last()) * 10 + (s.last() - 48));
        assert(dec_value(s) == n);
    } else {
        lemma_dec_round_trip(n / 10);
        let s = dec_bytes(n / 10).push(dec_digit(n % 10));
        assert(s.drop_last() =~= dec_bytes(n / 10));
        assert(dec_value(s) == (n / 10) * 10 + n % 10);
        assert((n / 10) * 10 + n % 10 == n) by {
            vstd::arithmetic::div_mod::lemma_fundamental_div_mod(n as int, 10);
        }
    }
}

/// A longer digit run never denotes a smaller number.
proof fn lemma_dec_value_extend(s: Seq<u8>, i: int, j: int)
    requires
        0 <= i <= j <= s.len(),
    ensures
        dec_value(s.subrange(0, j)) >= dec_value(s.subrange(0, i)),
    decreases j - i,
{
    if i < j {
        lemma_dec_value_extend(s, i, j - 1);
        let t = s.subrange(0, j);
        assert(t.drop_last() =~= s.subrange(0, j - 1));
        assert(dec_value(t) >= dec_value(t.drop_last()));
    } else {
        assert(s.subrange(0, i) =~= s.subrange(0, j));
    }
}

/// Formats `n` in decimal, canonically.
pub fn u64_to_dec(n: u64) -> (r: Vec<u8>)
    ensures
        r@ == dec_bytes(n as nat),
    decreases n,
{
    if n < 10 {
        let mut v: Vec<u8> = Vec::new();
        v.push(48 + n as u8);
        proof {
            assert(v@ =~= dec_bytes(n as nat));
        }
        v
    } else {
        let mut v = u64_to_dec(n / 10);
        v.push(48 + (n % 10) as u8);
        proof {
            assert(v@ =~= dec_bytes(n as nat));
        }
        v
    }
}

/// Reads a decimal digit run. Returns the denoted number exactly when `s` is
/// a non-empty digit run whose value fits in a `u64`, and nothing otherwise.
pub fn parse_dec(s: &[u8]) -> (r: Option<u64>)
    ensures
        r is Some <==> is_dec_bytes(s@) && dec_value(s@) <= u64::MAX,
        r matches Some(v) ==> v as nat == dec_value(s@),
{
    if s.len() == 0 {
        return None;
    }
    let mut acc: u64 = 0;
    let mut i: usize = 0;
    while i < s.len()
        invariant
            0 <= i <= s@.len(),
            forall|j: int| 0 <= j < i ==> 48 <= #[trigger] s@[j] <= 57,
            acc as nat == dec_value(s@.subrange(0, i as int)),
        decreases s@.len() - i,
    {
        let b = s[i];
        if b < 48 || b > 57 {
            return None;
        }
        let wide: u128 = acc as u128 * 10 + (b - 48) as u128;
        proof {
            assert(s@.subrange(0, i + 1).drop_last() =~= s@.subrange(0, i as int));
            assert(wide as nat == dec_value(s@.subrange(0, i + 1)));
        }
        if wide > u64::MAX as u128 {
            proof {
                lemma_dec_value_extend(s@, i + 1, s@.len() as int);
                assert(s@.subrange(0, s@.len() as int) =~= s@);
            }
            return None;
        }
        acc = wide as u64;
        i = i + 1;
    }
    proof {
        assert(s@.subrange(0, s@.len() as int) =~= s@);
    }
    Some(acc)
}

/// One decimal digit as a string slice.
fn dec_digit_str(d: u64) -> (r: &'static str)
    requires
        d < 10,
    ensures
        r@ == seq![dec_digit(d as nat) as char],
{
    proof {
        reveal_strlit("0");
        reveal_strlit("1");
        reveal_strlit("2");
        reveal_strlit("3");
        reveal_strlit("4");
        reveal_strlit("5");
        reveal_strlit("6");
        reveal_strlit("7");
        reveal_strlit("8");
        reveal_strlit("9");
    }
    if d == 0 {
        "0"
    } else if d == 1 {
        "1"
    } else if d == 2 {
        "2"
    } else if d == 3 {
        "3"
    } else if d == 4 {
        "4"
    } else if d == 5 {
        "5"
    } else if d == 6 {
        "6"
    } else if d == 7 {
        "7"
    } else if d == 8 {
        "8"
    } else {
        "9"
    }
}

/// Formats `n` in decimal as a string, canonically.
pub fn usize_to_string(n: usize) -> (r: String)
    ensures
        r@ == dec_chars(n as nat),
    decreases n,
{
    if n < 10 {
        let s = dec_digit_str(n as u64);
        String::from_str(s)
    } else {
        let mut prefix = usize_to_string(n / 10);
        let s = dec_digit_str((n % 10) as u64);
        prefix.append(s);
        proof {
            assert(prefix@ =~= dec_chars(n as nat));
        }
        prefix
    }
}

/// The ASCII byte of a single lowercase hexadecimal digit.
pub open spec fn hex_digit(d: nat) -> u8
    recommends
        d < 16,
{
    if d < 10 {
        (48 + d) as u8
    } else {
        (87 + d) as u8
    }
}

/// The canonical lowercase hexadecimal representation of `n`.
pub open spec fn hex_bytes(n: nat) -> Seq<u8>
    decreases n,
{
    if n < 16 {
        seq![hex_digit(n)]
    } else {
        hex_bytes(n / 16).push(hex_digit(n % 16))
    }
}

/// `b` is a hexadecimal digit byte, either case.
pub open spec fn is_hex_digit(b: u8) -> bool {
    (48 <= b <= 57) || (97 <= b <= 102) || (65 <= b <= 70)
}

/// The value of one hexadecimal digit byte.
pub open spec fn hex_digit_value(b: u8) -> nat {
    if 48 <= b <= 57 {
        (b - 48) as nat
    } else if 97 <= b <= 102 {
        (b - 87) as nat
    } else if 65 <= b <= 70 {
        (b - 55) as nat
    } else {
        0
    }
}

/// `s` is a non-empty run of hexadecimal digit bytes.
pub open spec fn is_hex_bytes(s: Seq<u8>) -> bool {
    s.len() > 0 && forall|i: int| 0 <= i < s.len() ==> is_hex_digit(#[trigger] s[i])
}

/// The number the hexadecimal run `s` denotes.
pub open spec fn hex_value(s: Seq<u8>) -> nat
    decreases s.len(),
{
    if s.len() == 0 {
        0
    } else {
        hex_value(s.drop_last()) * 16 + hex_digit_value(s.last())
    }
}

/// Reading back the canonical hexadecimal representation yields the number.
pub proof fn lemma_hex_round_trip(n: nat)
    ensures
        is_hex_bytes(hex_bytes(n)),
        hex_value(hex_bytes(n)) == n,
    decreases n,
{
    if n < 16 {
        let s = hex_bytes(n);
        assert(s =~= seq![hex_digit(n)]);
        assert(s.drop_last() =~= Seq::<u8>::empty());
        assert(hex_value(s.drop_last()) == 0);
        assert(s.last() == hex_digit(n));
        assert(hex_value(s) == hex_value(s.drop_last()) * 16 + hex_digit_value(s.last()));
        assert(hex_value(s) == n);
    } else {
        lemma_hex_round_trip(n / 16);
        let s = hex_bytes(n / 16).push(hex_digit(n % 16));
        assert(s.drop_last() =~= hex_bytes(n / 16));
        assert(hex_value(s) == (n / 16) * 16 + n % 16);
        assert((n / 16) * 16 + n % 16 == n) by {
            vstd::arithmetic::div_mod::lemma_fundamental_div_mod(n as int, 16);
        }
    }
}

/// A longer hexadecimal run never denotes a smaller number.
proof fn lemma_hex_value_extend(s: Seq<u8>, i: int, j: int)
    requires
        0 <= i <= j <= s.len(),
    ensures
        hex_value(s.subrange(0, j)) >= hex_value(s.subrange(0, i)),
    decreases j - i,
{
    if i < j {
        lemma_hex_value_extend(s, i, j - 1);
        let t = s.subrange(0, j);
        assert(t.drop_last() =~= s.subrange(0, j - 1));
        assert(hex_value(t) >= hex_value(t.drop_last()));
    } else {
        assert(s.subrange(0, i) =~= s.subrange(0, j));
    }
}

/// Formats `n` in lowercase hexadecimal, canonically.
pub fn u64_to_hex(n: u64) -> (r: Vec<u8>)
    ensures
        r@ == hex_bytes(n as nat),
    decreases n,
{
    let d: u8 = (n % 16) as u8;
    let digit: u8 = if d < 10 {
        48 + d
    } else {
        87 + d
    };
    if n < 16 {
        let mut v: Vec<u8> = Vec::new();
        v.push(digit);
        proof {
            assert(v@ =~= hex_bytes(n as nat));
        }
        v
    } else {
        let mut v = u64_to_hex(n / 16);
        v.push(digit);
        proof {
            assert(v@ =~= hex_bytes(n as nat));
        }
        v
    }
}

/// Reads a hexadecimal digit run. Returns the denoted number exactly when `s`
/// is a non-empty hexadecimal run whose value fits in a `u64`.
pub fn parse_hex(s: &[u8]) -> (r: Option<u64>)
    ensures
        r is Some <==> is_hex_bytes(s@) && hex_value(s@) <= u64::MAX,
        r matches Some(v) ==> v as nat == hex_value(s@),
{
    if s.len() == 0 {
        return None;
    }
    let mut acc: u64 = 0;
    let mut i: usize = 0;
    while i < s.len()
        invariant
            0 <= i <= s@.len(),
            forall|j: int| 0 <= j < i ==> is_hex_digit(#[trigger] s@[j]),
            acc as nat == hex_value(s@.subrange(0, i as int)),
        decreases s@.len() - i,
    {
        let b = s[i];
        let d: u8 = if 48 <= b && b <= 57 {
            b - 48
        } else if 97 <= b && b <= 102 {
            b - 87
        } else if 65 <= b && b <= 70 {
            b - 55
        } else {
            return None;
        };
        let wide: u128 = acc as u128 * 16 + d as u128;
        proof {
            assert(s@.subrange(0, i + 1).drop_last() =~= s@.subrange(0, i as int));
            assert(wide as nat == hex_value(s@.subrange(0, i + 1)));
        }
        if wide > u64::MAX as u128 {
            proof {
                lemma_hex_value_extend(s@, i + 1, s@.len() as int);
                assert(s@.subrange(0, s@.len() as int) =~= s@);
            }
            return None;
        }
        acc = wide as u64;
        i = i + 1;
    }
    proof {
        assert(s@.subrange(0, s@.len() as int) =~= s@);
    }
    Some(acc)
}

} // verus!
