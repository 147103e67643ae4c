//! Validation of IP address literals.
//!
//! Addresses handed to the URL builder and the login flow must be IPv4 or
//! IPv6 literals; host names are rejected.  The grammar accepted here is
//! the usual one: dotted-quad IPv4 (no leading zeros), and IPv6 as colon
//! separated groups of up to four hexadecimal digits, with at most one
//! `::` standing for one or more zero groups and an optional embedded
//! IPv4 tail.

use vstd::prelude::*;
use crate::text::{is_dec_digit, digit_val, digits_val, all_dec_digits};
use crate::text::chars_of;

verus! {

/// Index of the first occurrence of `sep` in `s`, or `s.len()` if absent.
pub open spec fn first_index_of(s: Seq<char>, sep: char) -> nat
    decreases s.len(),
{
    if s.len() == 0 {
        0
    } else if s[0] == sep {
        0
    } else {
        1 + first_index_of(s.drop_first(), sep)
    }
}

/// `first_index_of` is the least index holding `sep`, or the length.
pub proof fn lemma_first_index_char(s: Seq<char>, sep: char, k: int)
    requires
        0 <= k <= s.len(),
        forall|j: int| 0 <= j < k ==> s[j] != sep,
        k == s.len() || s[k] == sep,
    ensures
        first_index_of(s, sep) == k,
    decreases s.len(),
{
    if k == 0 {
        if s.len() > 0 && s[0] != sep {
            assert(false);
        }
    } else {
        assert(s[0] != sep);
        let t = s.drop_first();
        assert(forall|j: int| 0 <= j < k - 1 ==> t[j] == s[j + 1] && t[j] != sep);
        if k < s.len() {
            assert(t[k - 1] == s[k]);
        }
        lemma_first_index_char(t, sep, k - 1);
    }
}

/// The pieces of `s` between occurrences of `sep`; separators at the ends
/// or next to each other produce empty pieces.
pub open spec fn split_on(s: Seq<char>, sep: char) -> Seq<Seq<char>>
    decreases s.len(),
{
    let i = first_index_of(s, sep) as int;
    if i < s.len() {
        seq![s.take(i)] + split_on(s.skip(i + 1), sep)
    } else {
        seq![s]
    }
}

fn subvec(v: &Vec<char>, from: usize, to: usize) -> (r: Vec<char>)
    requires
        from <= to <= v@.len(),
    ensures
        r@ == v@.subrange(from as int, to as int),
{
    let mut r: Vec<char> = Vec::new();
    let mut i: usize = from;
    while i < to
        invariant
            from <= i <= to <= v@.len(),
            r@ == v@.subrange(from as int, i as int),
        decreases to - i,
    {
        r.push(v[i]);
        proof {
            assert(r@ =~= v@.subrange(from as int, i as int + 1));
        }
        i = i + 1;
    }
    r
}

/// The views of the elements of a vector of character vectors.
pub open spec fn views_of(r: Seq<Vec<char>>) -> Seq<Seq<char>> {
    r.map_values(|x: Vec<char>| x@)
}

fn split_from(v: &Vec<char>, from: usize, sep: char) -> (r: Vec<Vec<char>>)
    requires
        from <= v@.len(),
    ensures
        views_of(r@) == split_on(v@.skip(from as int), sep),
    decreases v@.len() - from,
{
    let n = v.len();
    let mut i = from;
    while i < n && v[i] != sep
        invariant
            from <= i <= n,
            n == v@.len(),
            forall|j: int| from <= j < i ==> v@[j] != sep,
        decreases n - i,
    {
        i = i + 1;
    }
    let ghost s = v@.skip(from as int);
    proof {
        assert(forall|j: int| 0 <= j < i - from ==> s[j] == v@[from + j] && s[j] != sep);
        if i < n {
            assert(s[i - from] == v@[i as int]);
        }
        lemma_first_index_char(s, sep, i - from);
    }
    let part = subvec(v, from, i);
    proof {
        assert(part@ =~= s.take(i - from));
    }
    if i < n {
        let rest = split_from(v, i + 1, sep);
        let mut r = rest;
        r.insert(0, part);
        proof {
            assert(s.skip(i - from + 1) =~= v@.skip(i as int + 1));
            assert(views_of(r@) =~= seq![s.take(i - from)] + split_on(s.skip(i - from + 1), sep));
        }
        r
    } else {
        let mut r: Vec<Vec<char>> = Vec::new();
        r.push(part);
        proof {
            assert(first_index_of(s, sep) == i - from);
            assert(s.take(i - from) =~= s);
            assert(views_of(r@) =~= seq![s]);
        }
        r
    }
}

/// Splits `v` at every occurrence of `sep`.
pub fn split_chars(v: &Vec<char>, sep: char) -> (r: Vec<Vec<char>>)
    ensures
        views_of(r@) == split_on(v@, sep),
{
    proof {
        assert(v@.skip(0) =~= v@);
    }
    split_from(v, 0, sep)
}

/// A valid IPv4 octet: one to three decimal digits, value at most 255,
/// and no leading zero.
pub open spec fn is_valid_octet(s: Seq<char>) -> bool {
    &&& 1 <= s.len() <= 3
    &&& all_dec_digits(s)
    &&& digits_val(s) <= 255
    &&& (s[0] != '0' || s.len() == 1)
}

/// A valid IPv4 literal: four dot-separated octets.
pub open spec fn is_valid_ipv4(s: Seq<char>) -> bool {
    let p = split_on(s, '.');
    p.len() == 4 && (forall|i: int| 0 <= i < 4 ==> is_valid_octet(#[trigger] p[i]))
}

fn is_valid_octet_vec(p: &Vec<char>) -> (r: bool)
    ensures
        r == is_valid_octet(p@),
{
    let n = p.len();
    if n < 1 || n > 3 {
        return false;
    }
    let mut i: usize = 0;
    while i < n
        invariant
            0 <= i <= n,
            n == p@.len(),
            forall|j: int| 0 <= j < i ==> is_dec_digit(#[trigger] p@[j]),
        decreases n - i,
    {
        let c = p[i];
        if !(48 <= c as u32 && c as u32 <= 57) {
            return false;
        }
        i = i + 1;
    }
    let mut val: u32 = 0;
    let mut k: usize = 0;
    proof {
        assert(p@.take(0) =~= Seq::<char>::empty());
    }
    while k < n
        invariant
            0 <= k <= n,
            n == p@.len(),
            n <= 3,
            all_dec_digits(p@),
            val == digits_val(p@.take(k as int)),
            0 <= val <= 999,
        decreases n - k,
    {
        let c = p[k];
        proof {
            assert(is_dec_digit(p@[k as int]));
            let t = p@.take(k as int + 1);
            assert(t.drop_last() =~= p@.take(k as int));
            assert(t.last() == p@[k as int]);
            assert(forall|j: int| 0 <= j < t.len() ==> t[j] == #[trigger] p@[j]);
            crate::text::lemma_digits_val_bound(t);
            assert(crate::text::pow10(0) == 1);
            assert(crate::text::pow10(1) == 10);
            assert(crate::text::pow10(2) == 100);
            assert(crate::text::pow10(3) == 1000);
        }
        val = val * 10 + (c as u32 - 48);
        k = k + 1;
    }
    proof {
        assert(p@.take(n as int) =~= p@);
    }
    if val > 255 {
        return false;
    }
    let first = p[0];
    first != '0' || n == 1
}

/// Checks whether `v` spells a valid IPv4 literal.
pub fn is_valid_ipv4_vec(v: &Vec<char>) -> (r: bool)
    ensures
        r == is_valid_ipv4(v@),
{
    let parts = split_chars(v, '.');
    if parts.len() != 4 {
        return false;
    }
    let mut i: usize = 0;
    while i < 4
        invariant
            0 <= i <= 4,
            parts@.len() == 4,
            views_of(parts@) == split_on(v@, '.'),
            forall|j: int| 0 <= j < i ==> is_valid_octet(#[trigger] views_of(parts@)[j]),
        decreases 4 - i,
    {
        let ok = is_valid_octet_vec(&parts[i]);
        proof {
            assert(views_of(parts@)[i as int] == parts@[i as int]@);
        }
        if !ok {
            return false;
        }
        i = i + 1;
    }
    true
}

/// A hexadecimal digit character.
pub open spec fn is_hex_digit(c: char) -> bool {
    is_dec_digit(c) || (97 <= c as u32 <= 102) || (65 <= c as u32 <= 70)
}

pub(crate) fn is_hex_digit_char(c: char) -> (r: bool)
    ensures
        r == is_hex_digit(c),
{
    let u = c as u32;
    (48 <= u && u <= 57) || (97 <= u && u <= 102) || (65 <= u && u <= 70)
}

/// A valid IPv6 group: one to four hexadecimal digits.
pub open spec fn is_hex_group(s: Seq<char>) -> bool {
    1 <= s.len() <= 4 && (forall|i: int| 0 <= i < s.len() ==> is_hex_digit(#[trigger] s[i]))
}

/// Every part with index in `[from, to)` is a hexadecimal group.
pub open spec fn hex_groups_in(p: Seq<Seq<char>>, from: int, to: int) -> bool {
    forall|i: int| from <= i < to ==> is_hex_group(#[trigger] p[i])
}

/// Every part with index in `[from, to)` is non-empty.
pub open spec fn nonempty_in(p: Seq<Seq<char>>, from: int, to: int) -> bool {
    forall|i: int| from <= i < to ==> (#[trigger] p[i]).len() > 0
}

/// The parts in `[from, to)` close an IPv6 address: hexadecimal groups,
/// except that the final part may be an embedded IPv4 address.
pub open spec fn tail_parts_ok(p: Seq<Seq<char>>, from: int, to: int) -> bool {
    if to <= from {
        true
    } else {
        hex_groups_in(p, from, to - 1) && (is_hex_group(p[to - 1]) || is_valid_ipv4(p[to - 1]))
    }
}

/// How many 16-bit address groups the parts in `[from, to)` stand for:
/// one per part, and one more when the final part is an embedded IPv4
/// address, which covers two groups.
pub open spec fn tail_group_count(p: Seq<Seq<char>>, from: int, to: int) -> int {
    (to - from) + if to > from && is_valid_ipv4(p[to - 1]) {
        1int
    } else {
        0int
    }
}

/// A valid IPv6 literal, in terms of its colon-separated parts: either
/// eight groups in full (an embedded IPv4 tail standing for two), or a
/// single `::` standing for one or more zero groups, placed at the start,
/// the end, in the middle, or alone.
pub open spec fn is_valid_ipv6_parts(p: Seq<Seq<char>>) -> bool {
    let n = p.len() as int;
    ||| (nonempty_in(p, 0, n) && tail_parts_ok(p, 0, n) && tail_group_count(p, 0, n) == 8)
    ||| (n == 3 && p[0].len() == 0 && p[1].len() == 0 && p[2].len() == 0)
    ||| (n >= 3 && p[0].len() == 0 && p[1].len() == 0 && nonempty_in(p, 2, n) && tail_parts_ok(
        p,
        2,
        n,
    ) && tail_group_count(p, 2, n) <= 7)
    ||| (n >= 3 && p[n - 2].len() == 0 && p[n - 1].len() == 0 && nonempty_in(p, 0, n - 2)
        && hex_groups_in(p, 0, n - 2) && n - 2 <= 7)
    ||| (exists|k: int|
        1 <= k < n - 1 && (#[trigger] p[k]).len() == 0 && nonempty_in(p, 0, k) && nonempty_in(
            p,
            k + 1,
            n,
        ) && hex_groups_in(p, 0, k) && tail_parts_ok(p, k + 1, n) && k + tail_group_count(
            p,
            k + 1,
            n,
        ) <= 7)
}

/// A valid IPv6 literal.
pub open spec fn is_valid_ipv6(s: Seq<char>) -> bool {
    is_valid_ipv6_parts(split_on(s, ':'))
}

proof fn refute_long(p: Seq<Seq<char>>, n: int)
    requires
        n == p.len(),
        n >= 10,
    ensures
        !is_valid_ipv6_parts(p),
{
    if is_valid_ipv6_parts(p) {
        if nonempty_in(p, 0, n) && tail_parts_ok(p, 0, n) && tail_group_count(p, 0, n) == 8 {
            assert(tail_group_count(p, 0, n) >= n);
        } else if n == 3 && p[0].len() == 0 && p[1].len() == 0 && p[2].len() == 0 {
            assert(false);
        } else if n >= 3 && p[0].len() == 0 && p[1].len() == 0 && nonempty_in(p, 2, n)
            && tail_parts_ok(p, 2, n) && tail_group_count(p, 2, n) <= 7 {
            assert(tail_group_count(p, 2, n) >= n - 2);
        } else if n >= 3 && p[n - 2].len() == 0 && p[n - 1].len() == 0 && nonempty_in(p, 0, n - 2)
            && hex_groups_in(p, 0, n - 2) && n - 2 <= 7 {
            assert(false);
        } else {
            let k = choose|k: int|
                1 <= k < n - 1 && (#[trigger] p[k]).len() == 0 && nonempty_in(p, 0, k)
                    && nonempty_in(p, k + 1, n) && hex_groups_in(p, 0, k) && tail_parts_ok(
                    p,
                    k + 1,
                    n,
                ) && k + tail_group_count(p, k + 1, n) <= 7;
            assert(tail_group_count(p, k + 1, n) >= n - k - 1);
        }
    }
}

proof fn refute_with_empty(p: Seq<Seq<char>>, n: int)
    requires
        n == p.len(),
        nonempty_in(p, 0, n),
        !(tail_parts_ok(p, 0, n) && tail_group_count(p, 0, n) == 8),
    ensures
        !is_valid_ipv6_parts(p),
{
    if is_valid_ipv6_parts(p) {
        if exists|k: int|
            1 <= k < n - 1 && (#[trigger] p[k]).len() == 0 && nonempty_in(p, 0, k) && nonempty_in(
                p,
                k + 1,
                n,
            ) && hex_groups_in(p, 0, k) && tail_parts_ok(p, k + 1, n) && k + tail_group_count(
                p,
                k + 1,
                n,
            ) <= 7 {
            let k = choose|k: int|
                1 <= k < n - 1 && (#[trigger] p[k]).len() == 0 && nonempty_in(p, 0, k)
                    && nonempty_in(p, k + 1, n) && hex_groups_in(p, 0, k) && tail_parts_ok(
                    p,
                    k + 1,
                    n,
                ) && k + tail_group_count(p, k + 1, n) <= 7;
            assert(p[k].len() > 0);
        }
    }
}

proof fn refute_one_empty_bad_place(p: Seq<Seq<char>>, n: int, k: int)
    requires
        n == p.len(),
        0 <= k < n,
        p[k].len() == 0,
        forall|j: int| 0 <= j < n && (#[trigger] p[j]).len() == 0 ==> j == k,
        !(1 <= k < n - 1),
    ensures
        !is_valid_ipv6_parts(p),
{
    if is_valid_ipv6_parts(p) {
        if nonempty_in(p, 0, n) && tail_parts_ok(p, 0, n) && tail_group_count(p, 0, n) == 8 {
            assert(p[k].len() > 0);
        } else if n == 3 && p[0].len() == 0 && p[1].len() == 0 && p[2].len() == 0 {
            assert(0 == k && 1 == k);
        } else if n >= 3 && p[0].len() == 0 && p[1].len() == 0 {
            assert(0 == k && 1 == k);
        } else if n >= 3 && p[n - 2].len() == 0 && p[n - 1].len() == 0 {
            assert(n - 2 == k && n - 1 == k);
        } else {
            let k2 = choose|k2: int|
                1 <= k2 < n - 1 && (#[trigger] p[k2]).len() == 0 && nonempty_in(p, 0, k2)
                    && nonempty_in(p, k2 + 1, n) && hex_groups_in(p, 0, k2) && tail_parts_ok(
                    p,
                    k2 + 1,
                    n,
                ) && k2 + tail_group_count(p, k2 + 1, n) <= 7;
            assert(k2 == k);
        }
    }
}

proof fn refute_one_empty_mismatch(p: Seq<Seq<char>>, n: int, k: int)
    requires
        n == p.len(),
        1 <= k < n - 1,
        p[k].len() == 0,
        forall|j: int| 0 <= j < n && (#[trigger] p[j]).len() == 0 ==> j == k,
        !(hex_groups_in(p, 0, k) && tail_parts_ok(p, k + 1, n) && k + tail_group_count(
            p,
            k + 1,
            n,
        ) <= 7),
    ensures
        !is_valid_ipv6_parts(p),
{
    if is_valid_ipv6_parts(p) {
        if nonempty_in(p, 0, n) && tail_parts_ok(p, 0, n) && tail_group_count(p, 0, n) == 8 {
            assert(p[k].len() > 0);
        } else if n == 3 && p[0].len() == 0 && p[1].len() == 0 && p[2].len() == 0 {
            assert(0 == k && 1 == k);
        } else if n >= 3 && p[0].len() == 0 && p[1].len() == 0 {
            assert(0 == k && 1 == k);
        } else if n >= 3 && p[n - 2].len() == 0 && p[n - 1].len() == 0 {
            assert(n - 2 == k && n - 1 == k);
        } else {
            let k2 = choose|k2: int|
                1 <= k2 < n - 1 && (#[trigger] p[k2]).len() == 0 && nonempty_in(p, 0, k2)
                    && nonempty_in(p, k2 + 1, n) && hex_groups_in(p, 0, k2) && tail_parts_ok(
                    p,
                    k2 + 1,
                    n,
                ) && k2 + tail_group_count(p, k2 + 1, n) <= 7;
            assert(k2 == k);
        }
    }
}

proof fn refute_two_empty_lead(p: Seq<Seq<char>>, n: int)
    requires
        n == p.len(),
        n >= 3,
        p[0].len() == 0,
        p[1].len() == 0,
        nonempty_in(p, 2, n),
        !(tail_parts_ok(p, 2, n) && tail_group_count(p, 2, n) <= 7),
    ensures
        !is_valid_ipv6_parts(p),
{
    if is_valid_ipv6_parts(p) {
        if nonempty_in(p, 0, n) && tail_parts_ok(p, 0, n) && tail_group_count(p, 0, n) == 8 {
            assert(p[0].len() > 0);
        } else if n == 3 && p[0].len() == 0 && p[1].len() == 0 && p[2].len() == 0 {
            assert(p[2].len() > 0);
        } else if n >= 3 && p[n - 2].len() == 0 && p[n - 1].len() == 0 && nonempty_in(p, 0, n - 2)
            && hex_groups_in(p, 0, n - 2) && n - 2 <= 7 {
            assert(p[n - 1].len() > 0);
        } else if n >= 3 && p[0].len() == 0 && p[1].len() == 0 && nonempty_in(p, 2, n)
            && tail_parts_ok(p, 2, n) && tail_group_count(p, 2, n) <= 7 {
            assert(false);
        } else {
            let k = choose|k: int|
                1 <= k < n - 1 && (#[trigger] p[k]).len() == 0 && nonempty_in(p, 0, k)
                    && nonempty_in(p, k + 1, n) && hex_groups_in(p, 0, k) && tail_parts_ok(
                    p,
                    k + 1,
                    n,
                ) && k + tail_group_count(p, k + 1, n) <= 7;
            if k == 1 {
                assert(nonempty_in(p, 0, 1));
                assert(p[0].len() > 0);
            } else {
                assert(k >= 2);
                assert(p[k].len() > 0);
            }
        }
    }
}

proof fn refute_two_empty_trail(p: Seq<Seq<char>>, n: int)
    requires
        n == p.len(),
        n >= 3,
        p[n - 2].len() == 0,
        p[n - 1].len() == 0,
        nonempty_in(p, 0, n - 2),
        !(hex_groups_in(p, 0, n - 2) && n - 2 <= 7),
    ensures
        !is_valid_ipv6_parts(p),
{
    if is_valid_ipv6_parts(p) {
        if nonempty_in(p, 0, n) && tail_parts_ok(p, 0, n) && tail_group_count(p, 0, n) == 8 {
            assert(p[n - 1].len() > 0);
        } else if n == 3 && p[0].len() == 0 && p[1].len() == 0 && p[2].len() == 0 {
            assert(p[0].len() > 0);
        } else if n >= 3 && p[0].len() == 0 && p[1].len() == 0 && nonempty_in(p, 2, n)
            && tail_parts_ok(p, 2, n) && tail_group_count(p, 2, n) <= 7 {
            assert(p[0].len() > 0);
        } else if n >= 3 && p[n - 2].len() == 0 && p[n - 1].len() == 0 && nonempty_in(p, 0, n - 2)
            && hex_groups_in(p, 0, n - 2) && n - 2 <= 7 {
            assert(false);
        } else {
            let k = choose|k: int|
                1 <= k < n - 1 && (#[trigger] p[k]).len() == 0 && nonempty_in(p, 0, k)
                    && nonempty_in(p, k + 1, n) && hex_groups_in(p, 0, k) && tail_parts_ok(
                    p,
                    k + 1,
                    n,
                ) && k + tail_group_count(p, k + 1, n) <= 7;
            assert(k == n - 2);
            assert(p[n - 1].len() > 0);
        }
    }
}

proof fn refute_two_empty_other(p: Seq<Seq<char>>, n: int, a: int, b: int)
    requires
        n == p.len(),
        0 <= a < b < n,
        p[a].len() == 0,
        p[b].len() == 0,
        forall|j: int| 0 <= j < n && (#[trigger] p[j]).len() == 0 ==> j == a || j == b,
        !(a == 0 && b == 1 && n >= 3),
        !(a == n - 2 && b == n - 1 && n >= 3),
    ensures
        !is_valid_ipv6_parts(p),
{
    if is_valid_ipv6_parts(p) {
        if nonempty_in(p, 0, n) && tail_parts_ok(p, 0, n) && tail_group_count(p, 0, n) == 8 {
            assert(p[a].len() > 0);
        } else if n == 3 && p[0].len() == 0 && p[1].len() == 0 && p[2].len() == 0 {
            assert(0 == a || 0 == b);
            assert(1 == a || 1 == b);
            assert(2 == a || 2 == b);
        } else if n >= 3 && p[0].len() == 0 && p[1].len() == 0 && nonempty_in(p, 2, n)
            && tail_parts_ok(p, 2, n) && tail_group_count(p, 2, n) <= 7 {
            assert(0 == a && 1 == b);
        } else if n >= 3 && p[n - 2].len() == 0 && p[n - 1].len() == 0 && nonempty_in(p, 0, n - 2)
            && hex_groups_in(p, 0, n - 2) && n - 2 <= 7 {
            assert(n - 2 == a && n - 1 == b);
        } else {
            let k = choose|k: int|
                1 <= k < n - 1 && (#[trigger] p[k]).len() == 0 && nonempty_in(p, 0, k)
                    && nonempty_in(p, k + 1, n) && hex_groups_in(p, 0, k) && tail_parts_ok(
                    p,
                    k + 1,
                    n,
                ) && k + tail_group_count(p, k + 1, n) <= 7;
            if k == a {
                assert(p[b].len() > 0);
            } else {
                assert(k == b);
                assert(p[a].len() > 0);
            }
        }
    }
}

proof fn refute_many_empty(p: Seq<Seq<char>>, n: int, a: int, b: int, c: int)
    requires
        n == p.len(),
        0 <= a < b < c < n,
        p[a].len() == 0,
        p[b].len() == 0,
        p[c].len() == 0,
        n != 3,
    ensures
        !is_valid_ipv6_parts(p),
{
    if is_valid_ipv6_parts(p) {
        if nonempty_in(p, 0, n) && tail_parts_ok(p, 0, n) && tail_group_count(p, 0, n) == 8 {
            assert(p[a].len() > 0);
        } else if n == 3 && p[0].len() == 0 && p[1].len() == 0 && p[2].len() == 0 {
            assert(false);
        } else if n >= 3 && p[0].len() == 0 && p[1].len() == 0 && nonempty_in(p, 2, n)
            && tail_parts_ok(p, 2, n) && tail_group_count(p, 2, n) <= 7 {
            assert(c >= 2);
            assert(p[c].len() > 0);
        } else if n >= 3 && p[n - 2].len() == 0 && p[n - 1].len() == 0 && nonempty_in(p, 0, n - 2)
            && hex_groups_in(p, 0, n - 2) && n - 2 <= 7 {
            assert(a < n - 2);
            assert(p[a].len() > 0);
        } else {
            let k = choose|k: int|
                1 <= k < n - 1 && (#[trigger] p[k]).len() == 0 && nonempty_in(p, 0, k)
                    && nonempty_in(p, k + 1, n) && hex_groups_in(p, 0, k) && tail_parts_ok(
                    p,
                    k + 1,
                    n,
                ) && k + tail_group_count(p, k + 1, n) <= 7;
            if a != k {
                assert(p[a].len() > 0);
            } else if b != k {
                assert(p[b].len() > 0);
            } else {
                assert(false);
            }
        }
    }
}

fn is_hex_group_vec(p: &Vec<char>) -> (r: bool)
    ensures
        r == is_hex_group(p@),
{
    let n = p.len();
    if n < 1 || n > 4 {
        return false;
    }
    let mut i: usize = 0;
    while i < n
        invariant
            0 <= i <= n,
            n == p@.len(),
            forall|j: int| 0 <= j < i ==> is_hex_digit(#[trigger] p@[j]),
        decreases n - i,
    {
        let c = p[i];
        let u = c as u32;
        if !((48 <= u && u <= 57) || (97 <= u && u <= 102) || (65 <= u && u <= 70)) {
            return false;
        }
        i = i + 1;
    }
    true
}

// Checks the parts in [from, to): hexadecimal groups with an optional
// embedded IPv4 tail, and how many address groups they stand for.
fn tail_check(parts: &Vec<Vec<char>>, from: usize, to: usize) -> (r: (bool, usize))
    requires
        from <= to <= parts@.len(),
        to - from < usize::MAX,
    ensures
        r.0 == tail_parts_ok(views_of(parts@), from as int, to as int),
        r.1 == tail_group_count(views_of(parts@), from as int, to as int) || !r.0,
{
    let ghost p = views_of(parts@);
    if to <= from {
        proof {
            assert(tail_group_count(p, from as int, to as int) == 0);
        }
        return (true, 0);
    }
    let mut i = from;
    while i < to - 1
        invariant
            from <= i <= to - 1,
            to <= parts@.len(),
            p == views_of(parts@),
            forall|j: int| from <= j < i ==> is_hex_group(#[trigger] p[j]),
        decreases to - i,
    {
        proof {
            assert(p[i as int] == parts@[i as int]@);
        }
        if !is_hex_group_vec(&parts[i]) {
            return (false, 0);
        }
        i = i + 1;
    }
    proof {
        assert(p[to - 1] == parts@[to - 1]@);
    }
    let last_hex = is_hex_group_vec(&parts[to - 1]);
    let last_v4 = is_valid_ipv4_vec(&parts[to - 1]);
    if !(last_hex || last_v4) {
        return (false, 0);
    }
    let count = (to - from) + if last_v4 {
        1
    } else {
        0
    };
    (true, count)
}

/// Checks whether `v` spells a valid IPv6 literal.
pub fn is_valid_ipv6_vec(v: &Vec<char>) -> (r: bool)
    ensures
        r == is_valid_ipv6(v@),
{
    let parts = split_chars(v, ':');
    let ghost p = views_of(parts@);
    let n = parts.len();
    if n > 9 {
        // too many parts for eight groups, however the `::` is placed
        proof {
            refute_long(p, n as int);
        }
        return false;
    }
    // find up to three empty parts
    let mut empty_count: usize = 0;
    let mut e1: usize = 0;
    let mut e2: usize = 0;
    let mut e3: usize = 0;
    let mut i: usize = 0;
    while i < n
        invariant
            0 <= i <= n,
            n == p.len(),
            p == views_of(parts@),
            empty_count <= i,
            forall|j: int|
                0 <= j < i && (#[trigger] p[j]).len() == 0 ==> (empty_count >= 1 && j == e1)
                    || (empty_count >= 2 && j == e2) || (empty_count >= 3 && j >= e3),
            empty_count >= 1 ==> e1 < i && p[e1 as int].len() == 0,
            empty_count >= 2 ==> e1 < e2 < i && p[e2 as int].len() == 0,
            empty_count >= 3 ==> e2 < e3 < i && p[e3 as int].len() == 0,
            empty_count == 0 ==> nonempty_in(p, 0, i as int),
        decreases n - i,
    {
        proof {
            assert(p[i as int] == parts@[i as int]@);
        }
        if parts[i].len() == 0 {
            if empty_count == 0 {
                e1 = i;
            } else if empty_count == 1 {
                e2 = i;
            } else if empty_count == 2 {
                e3 = i;
            }
            empty_count = empty_count + 1;
        }
        i = i + 1;
    }
    if empty_count == 0 {
        // full form: eight groups, no `::`
        let (ok, count) = tail_check(&parts, 0, n);
        let r = ok && count == 8;
        proof {
            if !r {
                refute_with_empty(p, n as int);
            }
        }
        return r;
    }
    if empty_count == 1 {
        // `a::b`: one interior empty part
        let k = e1;
        if !(1 <= k && k < n && k < n - 1) {
            proof {
                refute_one_empty_bad_place(p, n as int, k as int);
            }
            return false;
        }
        let head_hex = hex_range_check(&parts, 0, k);
        let (ok_tail, count_tail) = tail_check(&parts, k + 1, n);
        let r = head_hex && ok_tail && k + count_tail <= 7;
        proof {
            if r {
                assert(nonempty_in(p, 0, k as int));
                assert(nonempty_in(p, k as int + 1, n as int));
                assert(is_valid_ipv6_parts(p));
            } else {
                refute_one_empty_mismatch(p, n as int, k as int);
            }
        }
        return r;
    }
    if empty_count == 2 {
        if e1 == 0 && e2 == 1 && n >= 3 {
            // leading `::`
            let (ok, count) = tail_check(&parts, 2, n);
            let r = ok && count <= 7;
            proof {
                assert(nonempty_in(p, 2, n as int));
                if !r {
                    refute_two_empty_lead(p, n as int);
                }
            }
            return r;
        }
        if e1 == n - 2 && e2 == n - 1 && n >= 3 {
            // trailing `::`
            let all_hex = hex_range_check(&parts, 0, n - 2);
            let r = all_hex && n - 2 <= 7;
            proof {
                assert(nonempty_in(p, 0, n as int - 2));
                if !r {
                    refute_two_empty_trail(p, n as int);
                }
            }
            return r;
        }
        proof {
            refute_two_empty_other(p, n as int, e1 as int, e2 as int);
        }
        return false;
    }
    // three or more empty parts: only `::` alone is valid
    if empty_count == 3 && n == 3 {
        proof {
            assert(p[e1 as int].len() == 0 && p[e2 as int].len() == 0 && p[e3 as int].len() == 0);
            assert(0 <= e1 < e2 && e2 < e3 && e3 < 3);
            assert(e1 == 0 && e2 == 1 && e3 == 2);
            assert(is_valid_ipv6_parts(p));
        }
        return true;
    }
    proof {
        assert(n as int != 3);
        refute_many_empty(p, n as int, e1 as int, e2 as int, e3 as int);
    }
    false
}

// Checks that every part in [from, to) is a hexadecimal group.
fn hex_range_check(parts: &Vec<Vec<char>>, from: usize, to: usize) -> (r: bool)
    requires
        from <= to <= parts@.len(),
    ensures
        r == hex_groups_in(views_of(parts@), from as int, to as int),
{
    let ghost p = views_of(parts@);
    let mut j = from;
    while j < to
        invariant
            from <= j <= to <= parts@.len(),
            p == views_of(parts@),
            forall|t: int| from <= t < j ==> is_hex_group(#[trigger] p[t]),
        decreases to - j,
    {
        proof {
            assert(p[j as int] == parts@[j as int]@);
        }
        if !is_hex_group_vec(&parts[j]) {
            return false;
        }
        j = j + 1;
    }
    true
}

/// A valid IP address literal: IPv4 or IPv6.
pub open spec fn is_valid_ip_literal(s: Seq<char>) -> bool {
    is_valid_ipv4(s) || is_valid_ipv6(s)
}

/// Checks whether `address` is a valid IPv4 or IPv6 literal.
pub fn check_valid_ip(address: &str) -> (r: bool)
    ensures
        r == is_valid_ip_literal(address@),
{
    let v = chars_of(address);
    let v4 = is_valid_ipv4_vec(&v);
    if v4 {
        return true;
    }
    is_valid_ipv6_vec(&v)
}

} // verus!

