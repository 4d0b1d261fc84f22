//! Recognising IPv6 address literals, so that a tunnel towards an address
//! rather than a name mints a leaf whose alternative name is an IP entry.

use vstd::prelude::*;

use crate::cert::is_ipv4_literal;
use crate::dispatch::{find_byte, find_byte_exec};
use crate::num::is_hex_digit;

verus! {

/// Every found byte lies within range.
proof fn lemma_find_byte_in_range(s: Seq<u8>, from: int, b: u8)
    ensures
        find_byte(s, from, b) matches Option::Some(k) ==> from <= k < s.len() && s[k] == b,
    decreases s.len() - from,
{
    if !(from < 0 || from >= s.len()) {
        if s[from] != b {
            lemma_find_byte_in_range(s, from + 1, b);
        }
    }
}

/// The pieces of `s` between colons from position `i` on, in order; two
/// adjacent colons yield an empty piece.
pub open spec fn split_colon_from(s: Seq<u8>, i: int) -> Seq<Seq<u8>>
    decreases s.len() - i,
    when 0 <= i <= s.len()
    via split_colon_from_dec
{
    match find_byte(s, i, 58u8) {
        Option::None => seq![s.subrange(i, s.len() as int)],
        Option::Some(k) => seq![s.subrange(i, k)] + split_colon_from(s, k + 1),
    }
}

#[via_fn]
proof fn split_colon_from_dec(s: Seq<u8>, i: int) {
    lemma_find_byte_in_range(s, i, 58u8);
}

/// The pieces of `s` between colons.
pub open spec fn split_colon(s: Seq<u8>) -> Seq<Seq<u8>> {
    split_colon_from(s, 0)
}

/// One group of an address: one to four hexadecimal digits.
pub open spec fn hex_group_ok(g: Seq<u8>) -> bool {
    1 <= g.len() <= 4 && forall|i: int| 0 <= i < g.len() ==> is_hex_digit(#[trigger] g[i])
}

/// Pieces `i` up to `j` are all hexadecimal groups.
pub open spec fn all_hex_groups(p: Seq<Seq<u8>>, i: int, j: int) -> bool {
    forall|k: int| i <= k < j ==> hex_group_ok(#[trigger] p[k])
}

/// Pieces `i` to the end close an address: hexadecimal groups throughout,
/// or hexadecimal groups with one dotted-quad as the last piece.
pub open spec fn tail_ok(p: Seq<Seq<u8>>, i: int) -> bool {
    let n = p.len() as int;
    ||| all_hex_groups(p, i, n)
    ||| (i < n && all_hex_groups(p, i, n - 1) && is_ipv4_literal(p[n - 1]))
}

/// How many sixteen-bit groups the pieces `i` to the end stand for: a
/// dotted-quad tail stands for two.
pub open spec fn groups_from(p: Seq<Seq<u8>>, i: int) -> int
    recommends
        0 <= i < p.len(),
{
    if is_ipv4_literal(p[p.len() - 1]) {
        p.len() - i + 1
    } else {
        p.len() - i
    }
}

/// The first empty piece at or after `i`.
pub open spec fn first_empty_from(p: Seq<Seq<u8>>, i: int) -> Option<int>
    decreases p.len() - i,
{
    if i < 0 || i >= p.len() {
        Option::None
    } else if p[i].len() == 0 {
        Option::Some(i)
    } else {
        first_empty_from(p, i + 1)
    }
}

/// `s` is an IPv6 address literal, unbracketed: eight groups, or fewer
/// around one `::` run, optionally closed by a dotted-quad standing for
/// the last two groups.
pub open spec fn is_ipv6_literal(s: Seq<u8>) -> bool {
    let p = split_colon(s);
    let n = p.len() as int;
    match first_empty_from(p, 0) {
        Option::None => tail_ok(p, 0) && groups_from(p, 0) == 8,
        Option::Some(e) => if e == 0 {
            // The literal begins with `::`.
            &&& n >= 3
            &&& p[1].len() == 0
            &&& if n == 3 && p[2].len() == 0 {
                true  // the unspecified address, written `::`
            } else {
                tail_ok(p, 2) && groups_from(p, 2) <= 7
            }
        } else if e == n - 1 {
            false  // a single trailing colon
        } else {
            // A `::` run after at least one group.
            &&& all_hex_groups(p, 0, e)
            &&& if p[n - 1].len() == 0 {
                e == n - 2  // the literal ends with `::`
            } else {
                tail_ok(p, e + 1) && e + groups_from(p, e + 1) <= 7
            }
        },
    }
}

/// `s` is an IP address literal of either family.
pub open spec fn is_ip_literal(s: Seq<u8>) -> bool {
    is_ipv4_literal(s) || is_ipv6_literal(s)
}

/// Splits at every colon, exactly as [`split_colon`] says.
pub fn split_colon_exec(s: &[u8]) -> (r: Vec<Vec<u8>>)
    ensures
        r@.map_values(|v: Vec<u8>| v@) == split_colon(s@),
{
    let n = s.len();
    let mut acc: Vec<Vec<u8>> = Vec::new();
    let mut i: usize = 0;
    proof {
        assert(acc@.map_values(|v: Vec<u8>| v@) =~= Seq::<Seq<u8>>::empty());
    }
    loop
        invariant
            0 <= i <= n,
            n == s@.len(),
            split_colon(s@) == acc@.map_values(|v: Vec<u8>| v@) + split_colon_from(s@, i as int),
        decreases n - i,
    {
        let ghost accm = acc@.map_values(|v: Vec<u8>| v@);
        match find_byte_exec(s, i, 58) {
            None => {
                let piece = crate::headers::copy_bytes(vstd::slice::slice_subrange(s, i, n));
                acc.push(piece);
                proof {
                    assert(acc@.map_values(|v: Vec<u8>| v@) =~= accm.push(
                        s@.subrange(i as int, s@.len() as int),
                    ));
                    assert(accm + seq![s@.subrange(i as int, s@.len() as int)] =~= accm.push(
                        s@.subrange(i as int, s@.len() as int),
                    ));
                }
                return acc;
            },
            Some(k) => {
                let piece = crate::headers::copy_bytes(vstd::slice::slice_subrange(s, i, k));
                acc.push(piece);
                proof {
                    let tail = split_colon_from(s@, k + 1);
                    assert(split_colon_from(s@, i as int) == seq![s@.subrange(i as int, k as int)]
                        + tail);
                    assert(accm + (seq![s@.subrange(i as int, k as int)] + tail) =~= accm.push(
                        s@.subrange(i as int, k as int),
                    ) + tail);
                    assert(acc@.map_values(|v: Vec<u8>| v@) =~= accm.push(
                        s@.subrange(i as int, k as int),
                    ));
                }
                i = k + 1;
            },
        }
    }
}

/// Whether `g` is one hexadecimal group.
fn hex_group_ok_exec(g: &[u8]) -> (r: bool)
    ensures
        r == hex_group_ok(g@),
{
    g.len() <= 4 && crate::parser::validate_hex(g)
}

/// Whether pieces `i` up to `j` are all hexadecimal groups.
fn all_hex_groups_exec(p: &Vec<Vec<u8>>, i: usize, j: usize) -> (r: bool)
    requires
        i <= j <= p@.len(),
    ensures
        r == all_hex_groups(p@.map_values(|v: Vec<u8>| v@), i as int, j as int),
{
    let ghost pm = p@.map_values(|v: Vec<u8>| v@);
    let mut k: usize = i;
    while k < j
        invariant
            i <= k <= j <= p@.len(),
            pm == p@.map_values(|v: Vec<u8>| v@),
            forall|t: int| i <= t < k ==> hex_group_ok(#[trigger] pm[t]),
        decreases j - k,
    {
        proof {
            assert(pm[k as int] == p@[k as int]@);
        }
        if !hex_group_ok_exec(p[k].as_slice()) {
            return false;
        }
        k = k + 1;
    }
    true
}

/// Whether the pieces from `i` close an address, as [`tail_ok`] says.
fn tail_ok_exec(p: &Vec<Vec<u8>>, i: usize) -> (r: bool)
    requires
        i <= p@.len(),
    ensures
        r == tail_ok(p@.map_values(|v: Vec<u8>| v@), i as int),
{
    let n = p.len();
    if all_hex_groups_exec(p, i, n) {
        return true;
    }
    if i < n {
        proof {
            assert(p@.map_values(|v: Vec<u8>| v@)[n - 1] == p@[n - 1]@);
        }
        all_hex_groups_exec(p, i, n - 1) && crate::cert::is_ipv4_literal_exec(
            p[n - 1].as_slice(),
        )
    } else {
        false
    }
}

/// The first empty piece at or after position zero.
fn first_empty_exec(p: &Vec<Vec<u8>>) -> (r: Option<usize>)
    ensures
        ({
            let pm = p@.map_values(|v: Vec<u8>| v@);
            match r {
                Option::Some(e) => first_empty_from(pm, 0) == Option::Some(e as int) && e
                    < p@.len(),
                Option::None => first_empty_from(pm, 0) is None,
            }
        }),
{
    let ghost pm = p@.map_values(|v: Vec<u8>| v@);
    let mut k: usize = 0;
    while k < p.len()
        invariant
            0 <= k <= p@.len(),
            pm == p@.map_values(|v: Vec<u8>| v@),
            first_empty_from(pm, 0) == first_empty_from(pm, k as int),
        decreases p@.len() - k,
    {
        proof {
            assert(pm[k as int] == p@[k as int]@);
        }
        if p[k].len() == 0 {
            return Some(k);
        }
        k = k + 1;
    }
    None
}

/// How many groups the pieces from `i` stand for, as [`groups_from`] says.
fn groups_from_exec(p: &Vec<Vec<u8>>, i: usize) -> (r: u128)
    requires
        i < p@.len(),
    ensures
        r as int == groups_from(p@.map_values(|v: Vec<u8>| v@), i as int),
{
    let n = p.len();
    proof {
        assert(p@.map_values(|v: Vec<u8>| v@)[n - 1] == p@[n - 1]@);
    }
    let base = (n - i) as u128;
    if crate::cert::is_ipv4_literal_exec(p[n - 1].as_slice()) {
        base + 1
    } else {
        base
    }
}

/// Whether `s` is an IPv6 address literal, exactly as [`is_ipv6_literal`]
/// says.
pub fn is_ipv6_literal_exec(s: &[u8]) -> (r: bool)
    ensures
        r == is_ipv6_literal(s@),
{
    let p = split_colon_exec(s);
    let ghost pm = p@.map_values(|v: Vec<u8>| v@);
    let n = p.len();
    proof {
        assert(n >= 1) by {
            lemma_split_nonempty(s@, 0);
        }
    }
    match first_empty_exec(&p) {
        None => tail_ok_exec(&p, 0) && groups_from_exec(&p, 0) == 8,
        Some(e) => {
            if e == 0 {
                proof {
                    if n >= 2 {
                        assert(pm[1] == p@[1]@);
                    }
                    if n >= 3 {
                        assert(pm[2] == p@[2]@);
                    }
                }
                if !(n >= 3 && p[1].len() == 0) {
                    return false;
                }
                if n == 3 && p[2].len() == 0 {
                    return true;
                }
                tail_ok_exec(&p, 2) && groups_from_exec(&p, 2) <= 7
            } else if e == n - 1 {
                false
            } else {
                proof {
                    assert(pm[n - 1] == p@[n - 1]@);
                }
                if !all_hex_groups_exec(&p, 0, e) {
                    return false;
                }
                if p[n - 1].len() == 0 {
                    e == n - 2
                } else {
                    tail_ok_exec(&p, e + 1) && e as u128 + groups_from_exec(&p, e + 1) <= 7
                }
            }
        },
    }
}

/// A colon split yields at least one piece.
proof fn lemma_split_nonempty(s: Seq<u8>, i: int)
    requires
        0 <= i <= s.len(),
    ensures
        split_colon_from(s, i).len() >= 1,
    decreases s.len() - i,
{
    lemma_find_byte_in_range(s, i, 58u8);
    match find_byte(s, i, 58u8) {
        Option::None => {},
        Option::Some(k) => {},
    }
}

/// Whether `s` is an IP address literal of either family.
pub fn is_ip_literal_exec(s: &[u8]) -> (r: bool)
    ensures
        r == is_ip_literal(s@),
{
    crate::cert::is_ipv4_literal_exec(s) || is_ipv6_literal_exec(s)
}

} // verus!
