//! Character-level utilities shared by the URL builder, the header builder
//! and the wire codec: whitespace trimming, decimal rendering, and
//! conversions between `String` and `Vec<char>`.

use vstd::prelude::*;
use vstd::string::*;

verus! {

/// A whitespace character, following the Unicode `White_Space` property
/// (the set that `str::trim` removes).
pub open spec fn is_space(c: char) -> bool {
    let u = c as u32;
    u == 0x09 || u == 0x0A || u == 0x0B || u == 0x0C || u == 0x0D || u == 0x20 || u == 0x85
        || u == 0xA0 || u == 0x1680 || (0x2000 <= u && u <= 0x200A) || u == 0x2028 || u == 0x2029
        || u == 0x202F || u == 0x205F || u == 0x3000
}

fn is_space_char(c: char) -> (r: bool)
    ensures
        r == is_space(c),
{
    let u = c as u32;
    u == 0x09 || u == 0x0A || u == 0x0B || u == 0x0C || u == 0x0D || u == 0x20 || u == 0x85
        || u == 0xA0 || u == 0x1680 || (0x2000 <= u && u <= 0x200A) || u == 0x2028 || u == 0x2029
        || u == 0x202F || u == 0x205F || u == 0x3000
}

/// `s` without its leading whitespace.
pub open spec fn trim_start_rec(s: Seq<char>) -> Seq<char>
    decreases s.len(),
{
    if s.len() > 0 && is_space(s[0]) {
        trim_start_rec(s.drop_first())
    } else {
        s
    }
}

/// `s` without its trailing whitespace.
pub open spec fn trim_end_rec(s: Seq<char>) -> Seq<char>
    decreases s.len(),
{
    if s.len() > 0 && is_space(s.last()) {
        trim_end_rec(s.drop_last())
    } else {
        s
    }
}

/// `s` without surrounding whitespace, as `str::trim` leaves it.
pub open spec fn trim_spec(s: Seq<char>) -> Seq<char> {
    trim_end_rec(trim_start_rec(s))
}

/// Returns a copy of `s` without surrounding whitespace.
pub fn trim_of(s: &str) -> (r: String)
    ensures
        r@ == trim_spec(s@),
{
    let len = s.unicode_len();
    proof {
        assert(s@.skip(0) =~= s@);
    }
    let mut start: usize = 0;
    while start < len && is_space_char(s.get_char(start))
        invariant
            len == s@.len(),
            0 <= start <= len,
            trim_start_rec(s@) == trim_start_rec(s@.skip(start as int)),
        decreases len - start,
    {
        proof {
            assert(s@.skip(start as int)[0] == s@[start as int]);
            assert(s@.skip(start as int).drop_first() =~= s@.skip(start as int + 1));
        }
        start = start + 1;
    }
    proof {
        if start < len {
            assert(s@.skip(start as int)[0] == s@[start as int]);
        }
        assert(trim_start_rec(s@.skip(start as int)) == s@.skip(start as int));
        assert(s@.skip(start as int) =~= s@.subrange(start as int, len as int));
    }
    let mut end: usize = len;
    while end > start && is_space_char(s.get_char(end - 1))
        invariant
            len == s@.len(),
            start <= end <= len,
            trim_spec(s@) == trim_end_rec(s@.subrange(start as int, end as int)),
        decreases end,
    {
        proof {
            let t = s@.subrange(start as int, end as int);
            assert(t.last() == s@[end - 1]);
            assert(t.drop_last() =~= s@.subrange(start as int, end as int - 1));
        }
        end = end - 1;
    }
    proof {
        let t = s@.subrange(start as int, end as int);
        assert(trim_end_rec(t) == t);
    }
    let part = s.substring_char(start, end);
    String::from_str(part)
}

/// The decimal digit character for `n`, when `0 <= n <= 9`.
pub open spec fn dec_digit(n: int) -> char {
    ((48 + n) as u8) as char
}

/// The decimal rendering of a non-negative integer, most significant
/// digit first.
pub open spec fn dec_nat(n: int) -> Seq<char>
    decreases n,
{
    if n < 10 {
        seq![dec_digit(n)]
    } else {
        dec_nat(n / 10) + seq![dec_digit(n % 10)]
    }
}

/// The decimal rendering of an integer, with a leading `-` when negative.
pub open spec fn dec_int(i: int) -> Seq<char> {
    if i < 0 {
        seq!['-'] + dec_nat(-i)
    } else {
        dec_nat(i)
    }
}

fn push_dec_u64(n: u64, out: &mut Vec<char>)
    ensures
        final(out)@ == old(out)@ + dec_nat(n as int),
    decreases n,
{
    if n < 10 {
        let c = (48 + (n as u8)) as char;
        assert(c == dec_digit(n as int));
        out.push(c);
        assert(out@ =~= old(out)@ + dec_nat(n as int));
    } else {
        push_dec_u64(n / 10, out);
        let d = n % 10;
        let c = (48 + (d as u8)) as char;
        assert(c == dec_digit(n as int % 10));
        out.push(c);
        assert(out@ =~= old(out)@ + dec_nat(n as int));
    }
}

/// Renders `x` in decimal.
pub fn dec_string_i32(x: i32) -> (r: String)
    ensures
        r@ == dec_int(x as int),
{
    let mut v: Vec<char> = Vec::new();
    if x < 0 {
        v.push('-');
        let n: u64 = (-(x as i64)) as u64;
        push_dec_u64(n, &mut v);
        assert(v@ =~= dec_int(x as int));
    } else {
        let n: u64 = x as u64;
        push_dec_u64(n, &mut v);
        assert(v@ =~= dec_int(x as int));
    }
    string_from_chars(&v)
}

/// A decimal digit character.
pub open spec fn is_dec_digit(c: char) -> bool {
    48 <= c as u32 <= 57
}

/// The numeric value of a decimal digit character.
pub open spec fn digit_val(c: char) -> int {
    c as u32 - 48
}

/// True when every character of `s` is a decimal digit.
pub open spec fn all_dec_digits(s: Seq<char>) -> bool {
    forall|i: int| 0 <= i < s.len() ==> is_dec_digit(#[trigger] s[i])
}

/// The value of a sequence of decimal digit characters, most significant
/// digit first; the empty sequence has value zero.
pub open spec fn digits_val(s: Seq<char>) -> int
    decreases s.len(),
{
    if s.len() == 0 {
        0
    } else {
        digits_val(s.drop_last()) * 10 + digit_val(s.last())
    }
}

/// Ten to the power `n`.
pub open spec fn pow10(n: nat) -> int
    decreases n,
{
    if n == 0 {
        1
    } else {
        10 * pow10((n - 1) as nat)
    }
}

/// Powers of ten are positive.
pub proof fn lemma_pow10_pos(n: nat)
    ensures
        pow10(n) >= 1,
    decreases n,
{
    if n > 0 {
        lemma_pow10_pos((n - 1) as nat);
    }
}

/// Powers of ten grow with the exponent.
pub proof fn lemma_pow10_le(a: nat, b: nat)
    requires
        a <= b,
    ensures
        1 <= pow10(a) <= pow10(b),
    decreases b,
{
    if a == b {
        lemma_pow10_pos(a);
    } else {
        lemma_pow10_le(a, (b - 1) as nat);
    }
}

/// The value of a digit sequence is bounded by ten to its length.
pub proof fn lemma_digits_val_bound(s: Seq<char>)
    requires
        all_dec_digits(s),
    ensures
        0 <= digits_val(s) < pow10(s.len()),
    decreases s.len(),
{
    if s.len() > 0 {
        assert(all_dec_digits(s.drop_last())) by {
            assert(forall|i: int|
                0 <= i < s.len() - 1 ==> s.drop_last()[i] == #[trigger] s[i]);
        }
        lemma_digits_val_bound(s.drop_last());
        assert(digits_val(s.drop_last()) * 10 + digit_val(s.last()) < pow10(s.len())) by {
            let d = digits_val(s.drop_last());
            let p = pow10((s.len() - 1) as nat);
            assert(d <= p - 1);
            assert(d * 10 <= (p - 1) * 10) by (nonlinear_arith)
                requires
                    d <= p - 1,
            ;
            assert(pow10(s.len()) == 10 * p);
        }
    }
}

pub(crate) fn is_dec_digit_char(c: char) -> (r: bool)
    ensures
        r == is_dec_digit(c),
{
    48 <= c as u32 && c as u32 <= 57
}

/// A version marker `v` followed by a digit starts at index `i` of `s`.
pub open spec fn vdigit_at(s: Seq<char>, i: int) -> bool {
    0 <= i && i + 1 < s.len() && s[i] == 'v' && is_dec_digit(s[i + 1])
}

/// The first index of `s` where a version marker starts, or `s.len()`.
pub open spec fn find_vdigit(s: Seq<char>) -> nat
    decreases s.len(),
{
    if s.len() == 0 {
        0
    } else if vdigit_at(s, 0) {
        0
    } else {
        1 + find_vdigit(s.drop_first())
    }
}

proof fn lemma_find_vdigit(s: Seq<char>, k: int)
    requires
        0 <= k <= s.len(),
        forall|j: int| 0 <= j < k ==> !vdigit_at(s, j),
        k == s.len() || vdigit_at(s, k),
    ensures
        find_vdigit(s) == k,
    decreases s.len(),
{
    if k == 0 {
        if s.len() > 0 && !vdigit_at(s, 0) {
            assert(false);
        }
    } else {
        assert(!vdigit_at(s, 0));
        let t = s.drop_first();
        assert(forall|j: int| 0 <= j < t.len() ==> t[j] == s[j + 1]);
        assert forall|j: int| 0 <= j < k - 1 implies !vdigit_at(t, j) by {
            assert(0 <= j + 1 < k);
            assert(!vdigit_at(s, j + 1));
            if vdigit_at(t, j) {
                assert(t[j] == s[j + 1] && t[j + 1] == s[j + 2]);
                assert(vdigit_at(s, j + 1));
            }
        }
        if k < s.len() {
            assert(vdigit_at(t, k - 1));
        }
        lemma_find_vdigit(t, k - 1);
    }
}

/// `u` with the first version marker replaced by `v`; `u` itself when no
/// marker occurs.
pub open spec fn replace_api_version(u: Seq<char>, v: Seq<char>) -> Seq<char> {
    let i = find_vdigit(u) as int;
    if i + 2 <= u.len() {
        u.take(i) + v + u.skip(i + 2)
    } else {
        u
    }
}

/// Replaces the first `v`-plus-digit marker of `u` by `v`, as
/// [`replace_api_version`] describes.
pub fn replace_api_version_str(u: &str, v: &str) -> (r: String)
    ensures
        r@ == replace_api_version(u@, v@),
{
    let len = u.unicode_len();
    let mut i: usize = 0;
    while len - i > 1 && !(u.get_char(i) == 'v' && is_dec_digit_char(u.get_char(i + 1)))
        invariant
            len == u@.len(),
            0 <= i <= len,
            forall|j: int| 0 <= j < i ==> !vdigit_at(u@, j),
        decreases len - i,
    {
        i = i + 1;
    }
    if len - i > 1 {
        proof {
            lemma_find_vdigit(u@, i as int);
        }
        let mut r = String::from_str(u.substring_char(0, i));
        r.append(v);
        r.append(u.substring_char(i + 2, len));
        proof {
            assert(u@.subrange(0, i as int) =~= u@.take(i as int));
            assert(u@.subrange(i as int + 2, len as int) =~= u@.skip(i as int + 2));
        }
        r
    } else {
        proof {
            assert forall|j: int| 0 <= j < len implies !vdigit_at(u@, j) by {
                if j >= i {
                    assert(!(j + 1 < u@.len()));
                }
            }
            lemma_find_vdigit(u@, len as int);
        }
        String::from_str(u)
    }
}

/// Two consecutive digits start at index `i` of `s`.
pub open spec fn digit2_at(s: Seq<char>, i: int) -> bool {
    0 <= i && i + 1 < s.len() && is_dec_digit(s[i]) && is_dec_digit(s[i + 1])
}

/// The first index of `s` where two consecutive digits start, or `s.len()`.
pub open spec fn find_digit2(s: Seq<char>) -> nat
    decreases s.len(),
{
    if s.len() == 0 {
        0
    } else if digit2_at(s, 0) {
        0
    } else {
        1 + find_digit2(s.drop_first())
    }
}

proof fn lemma_find_digit2(s: Seq<char>, k: int)
    requires
        0 <= k <= s.len(),
        forall|j: int| 0 <= j < k ==> !digit2_at(s, j),
        k == s.len() || digit2_at(s, k),
    ensures
        find_digit2(s) == k,
    decreases s.len(),
{
    if k == 0 {
        if s.len() > 0 && !digit2_at(s, 0) {
            assert(false);
        }
    } else {
        assert(!digit2_at(s, 0));
        let t = s.drop_first();
        assert(forall|j: int| 0 <= j < t.len() ==> t[j] == s[j + 1]);
        assert forall|j: int| 0 <= j < k - 1 implies !digit2_at(t, j) by {
            assert(0 <= j + 1 < k);
            assert(!digit2_at(s, j + 1));
            if digit2_at(t, j) {
                assert(t[j] == s[j + 1] && t[j + 1] == s[j + 2]);
                assert(digit2_at(s, j + 1));
            }
        }
        if k < s.len() {
            assert(digit2_at(t, k - 1));
        }
        lemma_find_digit2(t, k - 1);
    }
}

/// The index just past the run of digits of `s` that starts at `j`.
pub open spec fn digit_run_end(s: Seq<char>, j: int) -> int
    decreases s.len() - j,
{
    if j < s.len() && is_dec_digit(s[j]) {
        digit_run_end(s, j + 1)
    } else {
        j
    }
}

pub(crate) proof fn lemma_digit_run_end(s: Seq<char>, j0: int, k: int)
    requires
        0 <= j0 <= k <= s.len(),
        forall|j: int| j0 <= j < k ==> is_dec_digit(#[trigger] s[j]),
        k == s.len() || !is_dec_digit(s[k]),
    ensures
        digit_run_end(s, j0) == k,
    decreases k - j0,
{
    if j0 == k {
    } else {
        assert(is_dec_digit(s[j0]));
        lemma_digit_run_end(s, j0 + 1, k);
    }
}

/// `u` with its first run of two or more digits replaced, whole, by `p`;
/// `u` itself when no such run occurs.
pub open spec fn replace_port(u: Seq<char>, p: Seq<char>) -> Seq<char> {
    let i = find_digit2(u) as int;
    if i + 2 <= u.len() {
        u.take(i) + p + u.skip(digit_run_end(u, i + 2))
    } else {
        u
    }
}

/// Replaces the first run of two or more digits of `u` by `p`, as
/// [`replace_port`] describes.
pub fn replace_port_str(u: &str, p: &str) -> (r: String)
    ensures
        r@ == replace_port(u@, p@),
{
    let len = u.unicode_len();
    let mut i: usize = 0;
    while len - i > 1 && !(is_dec_digit_char(u.get_char(i)) && is_dec_digit_char(
        u.get_char(i + 1),
    ))
        invariant
            len == u@.len(),
            0 <= i <= len,
            forall|j: int| 0 <= j < i ==> !digit2_at(u@, j),
        decreases len - i,
    {
        i = i + 1;
    }
    if len - i > 1 {
        proof {
            lemma_find_digit2(u@, i as int);
        }
        let mut e: usize = i + 2;
        while e < len && is_dec_digit_char(u.get_char(e))
            invariant
                len == u@.len(),
                i + 2 <= e <= len,
                forall|j: int| i + 2 <= j < e ==> is_dec_digit(#[trigger] u@[j]),
            decreases len - e,
        {
            e = e + 1;
        }
        proof {
            lemma_digit_run_end(u@, i as int + 2, e as int);
        }
        let mut r = String::from_str(u.substring_char(0, i));
        r.append(p);
        r.append(u.substring_char(e, len));
        proof {
            assert(u@.subrange(0, i as int) =~= u@.take(i as int));
            assert(u@.subrange(e as int, len as int) =~= u@.skip(e as int));
        }
        r
    } else {
        proof {
            assert forall|j: int| 0 <= j < len implies !digit2_at(u@, j) by {
                if j >= i {
                    assert(!(j + 1 < u@.len()));
                }
            }
            lemma_find_digit2(u@, len as int);
        }
        String::from_str(u)
    }
}

/// The characters of `s`, as a vector.
pub fn chars_of(s: &str) -> (v: Vec<char>)
    ensures
        v@ == s@,
{
    let len = s.unicode_len();
    let mut v: Vec<char> = Vec::new();
    let mut i: usize = 0;
    while i < len
        invariant
            len == s@.len(),
            0 <= i <= len,
            v@ == s@.take(i as int),
        decreases len - i,
    {
        v.push(s.get_char(i));
        proof {
            assert(v@ =~= s@.take(i as int + 1));
        }
        i = i + 1;
    }
    proof {
        assert(s@.take(len as int) =~= s@);
    }
    v
}

/// Relies on `String: FromIterator<char>`: collecting characters yields the
/// string made of exactly those characters, in order.
#[verifier::external_body]
pub(crate) fn string_from_chars(v: &Vec<char>) -> (r: String)
    ensures
        r@ == v@,
{
    v.iter().collect()
}

} // verus!
