//! The JSON wire format of [`LoginResponse`]: rendering for persistence,
//! parsing of login bodies, and the round-trip law tying the two.
//!
//! The grammar read by the parser is the JSON subset that login endpoints
//! answer with: one object whose member values are strings, integers,
//! `true`, `false` or `null`, with the four token fields required and
//! unknown members ignored.  String escapes cover the standard short
//! forms and `\u00XX`; an escape of a character outside that range is
//! treated as malformed.

use vstd::prelude::*;
use vstd::string::*;
use crate::error::LogInError;
use crate::ip::is_hex_digit;
use crate::login_response::{LoginResponse, LoginResponseView};
use crate::text::{
    dec_digit,
    dec_int,
    dec_nat,
    dec_string_i32,
    digit_val,
    digits_val,
    digit_run_end,
    is_dec_digit,
    pow10,
    chars_of,
    string_from_chars,
};

verus! {

/// The lowercase hexadecimal digit character for `n`, when `0 <= n <= 15`.
pub open spec fn hex_digit_char(n: int) -> char {
    if n < 10 {
        dec_digit(n)
    } else {
        ((87 + n) as u8) as char
    }
}

/// How one character is rendered inside a JSON string: quote and
/// backslash get a backslash escape, control characters a `\u00XX`
/// escape, everything else stands as itself.
pub open spec fn escape_char(c: char) -> Seq<char> {
    if c == '"' {
        seq!['\\', '"']
    } else if c == '\\' {
        seq!['\\', '\\']
    } else if (c as u32) < 32 {
        seq![
            '\\',
            'u',
            '0',
            '0',
            hex_digit_char(c as u32 as int / 16),
            hex_digit_char(c as u32 as int % 16),
        ]
    } else {
        seq![c]
    }
}

/// The rendering of `s` inside a JSON string.
pub open spec fn escape_str(s: Seq<char>) -> Seq<char>
    decreases s.len(),
{
    if s.len() == 0 {
        Seq::empty()
    } else {
        escape_char(s[0]) + escape_str(s.drop_first())
    }
}

/// The rendering of `s` as a JSON string, quotes included.
pub open spec fn quoted(s: Seq<char>) -> Seq<char> {
    seq!['"'] + escape_str(s) + seq!['"']
}

/// The JSON rendering of a login response: one object holding the four
/// token fields, in a fixed order, with no whitespace.
pub open spec fn json_of_login_response(m: LoginResponseView) -> Seq<char> {
    "{\"access_token\":"@ + quoted(m.access_token) + ",\"token_type\":"@ + quoted(m.token_type)
        + ",\"refresh_token\":"@ + quoted(m.refresh_token) + ",\"expires_in\":"@ + dec_int(
        m.expires_in,
    ) + "}"@
}

// Appends the escaped rendering of s@.skip(i) to out.
fn push_escaped(s: &str, i: usize, out: &mut Vec<char>)
    requires
        i <= s@.len(),
    ensures
        final(out)@ == old(out)@ + escape_str(s@.skip(i as int)),
    decreases s@.len() - i,
{
    let len = s.unicode_len();
    if i == len {
        proof {
            assert(s@.skip(i as int) =~= Seq::<char>::empty());
            assert(out@ =~= out@ + escape_str(s@.skip(i as int)));
        }
        return ;
    }
    let c = s.get_char(i);
    proof {
        assert(s@.skip(i as int)[0] == s@[i as int]);
        assert(s@.skip(i as int).drop_first() =~= s@.skip(i as int + 1));
    }
    if c == '"' {
        out.push('\\');
        out.push('"');
    } else if c == '\\' {
        out.push('\\');
        out.push('\\');
    } else if (c as u32) < 32 {
        out.push('\\');
        out.push('u');
        out.push('0');
        out.push('0');
        let hi = (c as u32) / 16;
        let lo = (c as u32) % 16;
        let hc = if hi < 10 {
            (48 + (hi as u8)) as char
        } else {
            (87 + (hi as u8)) as char
        };
        let lc = if lo < 10 {
            (48 + (lo as u8)) as char
        } else {
            (87 + (lo as u8)) as char
        };
        out.push(hc);
        out.push(lc);
        proof {
            assert(hc == hex_digit_char(c as u32 as int / 16));
            assert(lc == hex_digit_char(c as u32 as int % 16));
        }
    } else {
        out.push(c);
    }
    proof {
        assert(out@ =~= old(out)@ + escape_char(s@[i as int]));
    }
    push_escaped(s, i + 1, out);
    proof {
        assert(old(out)@ + escape_char(s@[i as int]) + escape_str(s@.skip(i as int + 1)) =~= old(
            out,
        )@ + escape_str(s@.skip(i as int)));
    }
}

// Appends the JSON string rendering of s, quotes included, to out.
fn append_quoted(out: &mut String, s: &str)
    ensures
        final(out)@ == old(out)@ + quoted(s@),
{
    let mut chars: Vec<char> = Vec::new();
    proof {
        assert(s@.skip(0) =~= s@);
    }
    push_escaped(s, 0, &mut chars);
    let escaped = string_from_chars(&chars);
    out.append("\"");
    out.append(escaped.as_str());
    out.append("\"");
    proof {
        reveal_strlit("\"");
        assert("\""@ =~= seq!['"']);
        assert(out@ =~= old(out)@ + quoted(s@));
    }
}

/// A JSON whitespace character.
pub open spec fn is_json_ws(c: char) -> bool {
    c == ' ' || c == '\t' || c == '\n' || c == '\r'
}

/// The numeric value of a hexadecimal digit character.
pub open spec fn hex_val(c: char) -> int {
    if is_dec_digit(c) {
        digit_val(c)
    } else if 97 <= c as u32 <= 102 {
        c as u32 - 87
    } else {
        c as u32 - 55
    }
}

/// `s` without its leading JSON whitespace.
pub open spec fn skip_ws(s: Seq<char>) -> Seq<char>
    decreases s.len(),
{
    if s.len() > 0 && is_json_ws(s[0]) {
        skip_ws(s.drop_first())
    } else {
        s
    }
}

/// What parsing a JSON string after its opening quote yields: the
/// unescaped content and the rest of the input after the closing quote.
pub open spec fn parse_string_body(s: Seq<char>) -> Option<(Seq<char>, Seq<char>)>
    decreases s.len(),
{
    if s.len() == 0 {
        None
    } else if s[0] == '"' {
        Some((Seq::empty(), s.drop_first()))
    } else if s[0] == '\\' {
        if s.len() < 2 {
            None
        } else if s[1] == 'u' {
            if s.len() < 6 {
                None
            } else if s[2] == '0' && s[3] == '0' && is_hex_digit(s[4]) && is_hex_digit(s[5]) {
                let c = ((hex_val(s[4]) * 16 + hex_val(s[5])) as u8) as char;
                match parse_string_body(s.skip(6)) {
                    Some((t, r)) => Some((seq![c] + t, r)),
                    None => None,
                }
            } else {
                None
            }
        } else if s[1] == '"' || s[1] == '\\' || s[1] == '/' || s[1] == 'b' || s[1] == 'f' || s[1]
            == 'n' || s[1] == 'r' || s[1] == 't' {
            let c = if s[1] == '"' {
                '"'
            } else if s[1] == '\\' {
                '\\'
            } else if s[1] == '/' {
                '/'
            } else if s[1] == 'b' {
                '\u{8}'
            } else if s[1] == 'f' {
                '\u{C}'
            } else if s[1] == 'n' {
                '\n'
            } else if s[1] == 'r' {
                '\r'
            } else {
                '\t'
            };
            match parse_string_body(s.skip(2)) {
                Some((t, r)) => Some((seq![c] + t, r)),
                None => None,
            }
        } else {
            None
        }
    } else {
        match parse_string_body(s.drop_first()) {
            Some((t, r)) => Some((seq![s[0]] + t, r)),
            None => None,
        }
    }
}

/// What parsing an unsigned JSON integer yields: its value and the rest
/// of the input.  At most ten digits, and no leading zero.
pub open spec fn parse_uint(s: Seq<char>) -> Option<(int, Seq<char>)> {
    let k = digit_run_end(s, 0);
    if k == 0 {
        None
    } else if k > 10 {
        None
    } else if s[0] == '0' && k > 1 {
        None
    } else {
        Some((digits_val(s.take(k)), s.skip(k)))
    }
}

/// What parsing a JSON integer yields: its value, which must fit a
/// 32-bit signed integer, and the rest of the input.
pub open spec fn parse_int(s: Seq<char>) -> Option<(int, Seq<char>)> {
    if s.len() > 0 && s[0] == '-' {
        match parse_uint(s.drop_first()) {
            Some((v, r)) => if -v >= i32::MIN {
                Some((-v, r))
            } else {
                None
            },
            None => None,
        }
    } else {
        match parse_uint(s) {
            Some((v, r)) => if v <= i32::MAX {
                Some((v, r))
            } else {
                None
            },
            None => None,
        }
    }
}

/// A member value the parser can read: a string, an integer, a boolean
/// or null.
pub enum JsonScalar {
    Str(Seq<char>),
    Int(int),
    Bool(bool),
    Null,
}

/// `s` begins with `p`.
pub open spec fn starts_with(s: Seq<char>, p: Seq<char>) -> bool {
    s.len() >= p.len() && s.take(p.len() as int) == p
}

/// What parsing one member value yields.
pub open spec fn parse_scalar(s: Seq<char>) -> Option<(JsonScalar, Seq<char>)> {
    if s.len() == 0 {
        None
    } else if s[0] == '"' {
        match parse_string_body(s.drop_first()) {
            Some((t, r)) => Some((JsonScalar::Str(t), r)),
            None => None,
        }
    } else if s[0] == '-' || is_dec_digit(s[0]) {
        match parse_int(s) {
            Some((v, r)) => Some((JsonScalar::Int(v), r)),
            None => None,
        }
    } else if starts_with(s, "true"@) {
        Some((JsonScalar::Bool(true), s.skip(4)))
    } else if starts_with(s, "false"@) {
        Some((JsonScalar::Bool(false), s.skip(5)))
    } else if starts_with(s, "null"@) {
        Some((JsonScalar::Null, s.skip(4)))
    } else {
        None
    }
}

/// The fields collected while reading an object's members.
pub struct PartialFields {
    pub access_token: Option<Seq<char>>,
    pub token_type: Option<Seq<char>>,
    pub refresh_token: Option<Seq<char>>,
    pub expires_in: Option<int>,
}

/// No fields collected yet.
pub open spec fn no_fields() -> PartialFields {
    PartialFields { access_token: None, token_type: None, refresh_token: None, expires_in: None }
}

/// Records one member: each known field must occur once and carry a value
/// of its type; unknown members are ignored.
pub open spec fn apply_member(acc: PartialFields, key: Seq<char>, v: JsonScalar) -> Option<
    PartialFields,
> {
    if key == "access_token"@ {
        match v {
            JsonScalar::Str(t) => if acc.access_token is None {
                Some(PartialFields { access_token: Some(t), ..acc })
            } else {
                None
            },
            _ => None,
        }
    } else if key == "token_type"@ {
        match v {
            JsonScalar::Str(t) => if acc.token_type is None {
                Some(PartialFields { token_type: Some(t), ..acc })
            } else {
                None
            },
            _ => None,
        }
    } else if key == "refresh_token"@ {
        match v {
            JsonScalar::Str(t) => if acc.refresh_token is None {
                Some(PartialFields { refresh_token: Some(t), ..acc })
            } else {
                None
            },
            _ => None,
        }
    } else if key == "expires_in"@ {
        match v {
            JsonScalar::Int(x) => if acc.expires_in is None {
                Some(PartialFields { expires_in: Some(x), ..acc })
            } else {
                None
            },
            _ => None,
        }
    } else {
        Some(acc)
    }
}

/// What parsing the members of the object yields, starting after `{` or
/// after a comma: the fields collected and the rest of the input after
/// the closing brace.
pub open spec fn parse_members(s: Seq<char>, acc: PartialFields) -> Option<
    (PartialFields, Seq<char>),
>
    decreases s.len(),
{
    let s1 = skip_ws(s);
    if s1.len() == 0 || s1[0] != '"' {
        None
    } else {
        match parse_string_body(s1.drop_first()) {
            None => None,
            Some((key, s2)) => {
                let s3 = skip_ws(s2);
                if s3.len() == 0 || s3[0] != ':' {
                    None
                } else {
                    let s4 = skip_ws(s3.drop_first());
                    match parse_scalar(s4) {
                        None => None,
                        Some((v, s5)) => match apply_member(acc, key, v) {
                            None => None,
                            Some(acc2) => {
                                let s6 = skip_ws(s5);
                                if s6.len() == 0 {
                                    None
                                } else if s6[0] == '}' {
                                    Some((acc2, s6.drop_first()))
                                } else if s6[0] == ',' && s6.drop_first().len() < s.len() {
                                    parse_members(s6.drop_first(), acc2)
                                } else {
                                    None
                                }
                            },
                        },
                    }
                }
            },
        }
    }
}

/// What parsing a whole login response body yields: one object whose
/// members include the four token fields exactly once each, surrounded
/// by nothing but whitespace.
pub open spec fn spec_parse_login_response(s: Seq<char>) -> Option<LoginResponseView> {
    let s1 = skip_ws(s);
    if s1.len() == 0 || s1[0] != '{' {
        None
    } else {
        match parse_members(s1.drop_first(), no_fields()) {
            None => None,
            Some((acc, rest)) => if skip_ws(rest).len() != 0 {
                None
            } else {
                match (acc.access_token, acc.token_type, acc.refresh_token, acc.expires_in) {
                    (Some(a), Some(tt), Some(rt), Some(e)) => Some(
                        LoginResponseView {
                            access_token: a,
                            token_type: tt,
                            refresh_token: rt,
                            expires_in: e,
                        },
                    ),
                    _ => None,
                }
            },
        }
    }
}

/// A character that stands as itself inside a JSON string.
pub open spec fn is_plain_json_char(c: char) -> bool {
    c != '"' && c != '\\' && c as u32 >= 32
}

/// Escaping a string of plain characters leaves it unchanged.
proof fn lemma_escape_plain_id(s: Seq<char>)
    requires
        forall|i: int| 0 <= i < s.len() ==> is_plain_json_char(#[trigger] s[i]),
    ensures
        escape_str(s) == s,
    decreases s.len(),
{
    if s.len() > 0 {
        assert(is_plain_json_char(s[0]));
        assert(escape_char(s[0]) == seq![s[0]]);
        assert(forall|i: int|
            0 <= i < s.len() - 1 ==> s.drop_first()[i] == #[trigger] s[i + 1]);
        assert(forall|i: int|
            0 <= i < s.drop_first().len() ==> is_plain_json_char(#[trigger] s.drop_first()[i]));
        lemma_escape_plain_id(s.drop_first());
        assert(escape_str(s) =~= s);
    }
}

proof fn lemma_hex_digit_char(n: int)
    requires
        0 <= n < 16,
    ensures
        is_hex_digit(hex_digit_char(n)),
        hex_val(hex_digit_char(n)) == n,
{
    if n < 10 {
        assert(hex_digit_char(n) as u32 == 48 + n);
    } else {
        assert(hex_digit_char(n) as u32 == 87 + n);
    }
}

/// Parsing a string body reads back exactly what escaping wrote.
proof fn lemma_parse_string_body_escape(t: Seq<char>, rest: Seq<char>)
    ensures
        parse_string_body(escape_str(t) + seq!['"'] + rest) == Some((t, rest)),
    decreases t.len(),
{
    let s = escape_str(t) + seq!['"'] + rest;
    if t.len() == 0 {
        assert(escape_str(t) =~= Seq::<char>::empty());
        assert(s =~= seq!['"'] + rest);
        assert(s[0] == '"');
        assert(s.drop_first() =~= rest);
        assert(parse_string_body(s) == Some((Seq::<char>::empty(), rest)));
        assert(Seq::<char>::empty() =~= t);
    } else {
        let c = t[0];
        let t1 = t.drop_first();
        let tail = escape_str(t1) + seq!['"'] + rest;
        assert(escape_str(t) == escape_char(c) + escape_str(t1));
        assert(s =~= escape_char(c) + tail);
        lemma_parse_string_body_escape(t1, rest);
        if c == '"' {
            assert(s[0] == '\\' && s[1] == '"');
            assert(s.len() >= 2);
            assert(s.skip(2) =~= tail);
            assert(parse_string_body(s) == Some((seq![c] + t1, rest)));
            assert(seq![c] + t1 =~= t);
        } else if c == '\\' {
            assert(s[0] == '\\' && s[1] == '\\');
            assert(s.skip(2) =~= tail);
            assert(parse_string_body(s) == Some((seq![c] + t1, rest)));
            assert(seq![c] + t1 =~= t);
        } else if (c as u32) < 32 {
            let hi = c as u32 as int / 16;
            let lo = c as u32 as int % 16;
            lemma_hex_digit_char(hi);
            lemma_hex_digit_char(lo);
            assert(s[0] == '\\' && s[1] == 'u' && s[2] == '0' && s[3] == '0');
            assert(s[4] == hex_digit_char(hi) && s[5] == hex_digit_char(lo));
            assert(s.len() >= 6);
            assert(s.skip(6) =~= tail);
            let code = hex_val(s[4]) * 16 + hex_val(s[5]);
            assert(code == c as u32) by {
                assert(hex_val(s[4]) == hi && hex_val(s[5]) == lo);
            }
            assert(((code as u8) as char) == c) by {
                assert(code < 32);
                vstd::utf8::char_u32_cast(c, c as u32);
            }
            assert(parse_string_body(s) == Some((seq![c] + t1, rest)));
            assert(seq![c] + t1 =~= t);
        } else {
            assert(s[0] == c);
            assert(s.drop_first() =~= tail);
            assert(parse_string_body(s) == Some((seq![c] + t1, rest)));
            assert(seq![c] + t1 =~= t);
        }
    }
}

proof fn lemma_dec_nat_digits(n: int)
    requires
        n >= 0,
    ensures
        dec_nat(n).len() >= 1,
        forall|i: int| 0 <= i < dec_nat(n).len() ==> is_dec_digit(#[trigger] dec_nat(n)[i]),
        n >= 1 ==> dec_nat(n)[0] != '0',
        n == 0 ==> dec_nat(n) == seq!['0'],
    decreases n,
{
    if n < 10 {
        assert(dec_digit(n) as u32 == 48 + n);
        assert(dec_nat(n) == seq![dec_digit(n)]);
        if n == 0 {
            assert(dec_nat(n) =~= seq!['0']);
        }
    } else {
        lemma_dec_nat_digits(n / 10);
        let h = dec_nat(n / 10);
        let d = dec_digit(n % 10);
        assert(d as u32 == 48 + n % 10);
        assert(dec_nat(n) == h + seq![d]);
        assert(forall|i: int| 0 <= i < h.len() ==> dec_nat(n)[i] == #[trigger] h[i]);
        assert(dec_nat(n)[h.len() as int] == d);
        assert(dec_nat(n)[0] == h[0]);
    }
}

proof fn lemma_dec_nat_len(n: int, k: nat)
    requires
        0 <= n < pow10(k),
        k >= 1,
    ensures
        dec_nat(n).len() <= k,
    decreases k,
{
    if n < 10 {
    } else {
        let p = pow10((k - 1) as nat);
        assert(pow10(k) == 10 * p);
        crate::text::lemma_pow10_pos((k - 1) as nat);
        assert(n / 10 < p) by (nonlinear_arith)
            requires
                n < 10 * p,
                n >= 10,
                p >= 1,
        ;
        assert(k >= 2) by {
            if k == 1 {
                assert(pow10(1nat) == 10);
            }
        }
        lemma_dec_nat_len(n / 10, (k - 1) as nat);
    }
}

proof fn lemma_digits_val_dec_nat(n: int)
    requires
        n >= 0,
    ensures
        digits_val(dec_nat(n)) == n,
    decreases n,
{
    if n < 10 {
        assert(dec_digit(n) as u32 == 48 + n);
        assert(dec_nat(n) == seq![dec_digit(n)]);
        assert(dec_nat(n).len() == 1);
        assert(dec_nat(n).drop_last() =~= Seq::<char>::empty());
        assert(dec_nat(n).last() == dec_digit(n));
        assert(digits_val(Seq::<char>::empty()) == 0);
        assert(digits_val(dec_nat(n)) == digits_val(dec_nat(n).drop_last()) * 10 + digit_val(
            dec_nat(n).last(),
        ));
        assert(digit_val(dec_digit(n)) == n);
    } else {
        lemma_digits_val_dec_nat(n / 10);
        let h = dec_nat(n / 10);
        let d = dec_digit(n % 10);
        assert(d as u32 == 48 + n % 10);
        assert(dec_nat(n) == h + seq![d]);
        assert(dec_nat(n).drop_last() =~= h);
        assert(dec_nat(n).last() == d);
        assert(digits_val(dec_nat(n)) == digits_val(h) * 10 + digit_val(d));
    }
}

/// Parsing an integer reads back exactly what decimal rendering wrote,
/// when what follows does not begin with a digit.
proof fn lemma_parse_int_dec(x: int, rest: Seq<char>)
    requires
        i32::MIN <= x <= i32::MAX,
        rest.len() == 0 || !is_dec_digit(rest[0]),
    ensures
        parse_int(dec_int(x) + rest) == Some((x, rest)),
{
    assert(pow10(10nat) == 10000000000) by {
        assert(pow10(0nat) == 1);
        assert(pow10(1nat) == 10);
        assert(pow10(2nat) == 100);
        assert(pow10(3nat) == 1000);
        assert(pow10(4nat) == 10000);
        assert(pow10(5nat) == 100000);
        assert(pow10(6nat) == 1000000);
        assert(pow10(7nat) == 10000000);
        assert(pow10(8nat) == 100000000);
        assert(pow10(9nat) == 1000000000);
    }
    if x >= 0 {
        let s = dec_int(x) + rest;
        assert(dec_int(x) == dec_nat(x));
        lemma_parse_uint_dec(x, rest);
        lemma_dec_nat_digits(x);
        assert(s[0] == dec_nat(x)[0]);
        assert(s[0] != '-') by {
            assert(is_dec_digit(s[0]));
            assert('-' as u32 == 45);
        }
        assert(s =~= dec_nat(x) + rest);
    } else {
        let n = -x;
        let s = dec_int(x) + rest;
        assert(dec_int(x) == seq!['-'] + dec_nat(n));
        assert(s =~= seq!['-'] + (dec_nat(n) + rest));
        assert(s[0] == '-');
        assert(s.drop_first() =~= dec_nat(n) + rest);
        lemma_parse_uint_dec(n, rest);
        assert(parse_uint(s.drop_first()) == Some((n, rest)));
        assert(-n >= i32::MIN);
    }
}

proof fn lemma_parse_uint_dec(n: int, rest: Seq<char>)
    requires
        0 <= n <= 2147483648,
        rest.len() == 0 || !is_dec_digit(rest[0]),
    ensures
        parse_uint(dec_nat(n) + rest) == Some((n, rest)),
{
    let d = dec_nat(n);
    let s = d + rest;
    lemma_dec_nat_digits(n);
    assert(pow10(10nat) == 10000000000) by {
        assert(pow10(0nat) == 1);
        assert(pow10(1nat) == 10);
        assert(pow10(2nat) == 100);
        assert(pow10(3nat) == 1000);
        assert(pow10(4nat) == 10000);
        assert(pow10(5nat) == 100000);
        assert(pow10(6nat) == 1000000);
        assert(pow10(7nat) == 10000000);
        assert(pow10(8nat) == 100000000);
        assert(pow10(9nat) == 1000000000);
    }
    lemma_dec_nat_len(n, 10nat);
    assert(forall|i: int| 0 <= i < d.len() ==> s[i] == #[trigger] d[i]);
    if rest.len() > 0 {
        assert(s[d.len() as int] == rest[0]);
    }
    crate::text::lemma_digit_run_end(s, 0, d.len() as int);
    assert(digit_run_end(s, 0) == d.len());
    assert(1 <= d.len() <= 10);
    assert(s[0] == d[0]);
    if n == 0 {
        assert(d == seq!['0']);
        assert(d.len() == 1);
    } else {
        assert(s[0] != '0');
    }
    assert(s.take(d.len() as int) =~= d);
    assert(s.skip(d.len() as int) =~= rest);
    lemma_digits_val_dec_nat(n);
}

// One `"key":"value"` member followed by `tail`, which begins with the
// comma or brace that closes it.
proof fn lemma_member_step_str(key: Seq<char>, val: Seq<char>, tail: Seq<char>, acc: PartialFields)
    requires
        apply_member(acc, key, JsonScalar::Str(val)) is Some,
        tail.len() > 0,
        tail[0] == ',' || tail[0] == '}',
    ensures
        ({
            let s = quoted(key) + seq![':'] + quoted(val) + tail;
            let acc2 = apply_member(acc, key, JsonScalar::Str(val))->0;
            if tail[0] == '}' {
                parse_members(s, acc) == Some((acc2, tail.drop_first()))
            } else {
                parse_members(s, acc) == parse_members(tail.drop_first(), acc2)
            }
        }),
{
    let s = quoted(key) + seq![':'] + quoted(val) + tail;
    let acc2 = apply_member(acc, key, JsonScalar::Str(val))->0;
    assert(s[0] == '"');
    assert(!is_json_ws(s[0]));
    assert(skip_ws(s) == s);
    let rest1 = seq![':'] + quoted(val) + tail;
    assert(s.drop_first() =~= escape_str(key) + seq!['"'] + rest1);
    lemma_parse_string_body_escape(key, rest1);
    assert(parse_string_body(s.drop_first()) == Some((key, rest1)));
    assert(rest1[0] == ':');
    assert(!is_json_ws(rest1[0]));
    assert(skip_ws(rest1) == rest1);
    let rest2 = quoted(val) + tail;
    assert(rest1.drop_first() =~= rest2);
    assert(rest2[0] == '"');
    assert(skip_ws(rest2) == rest2);
    assert(rest2.drop_first() =~= escape_str(val) + seq!['"'] + tail);
    lemma_parse_string_body_escape(val, tail);
    assert(parse_scalar(rest2) == Some((JsonScalar::Str(val), tail)));
    assert(!is_json_ws(tail[0]));
    assert(skip_ws(tail) == tail);
    if tail[0] == '}' {
    } else {
        assert(tail.drop_first().len() < s.len()) by {
            assert(quoted(key).len() >= 2);
        }
    }
}

// The final `"key":<integer>` member followed by `tail`, which begins
// with the comma or brace that closes it.
proof fn lemma_member_step_int(key: Seq<char>, x: int, tail: Seq<char>, acc: PartialFields)
    requires
        apply_member(acc, key, JsonScalar::Int(x)) is Some,
        i32::MIN <= x <= i32::MAX,
        tail.len() > 0,
        tail[0] == ',' || tail[0] == '}',
    ensures
        ({
            let s = quoted(key) + seq![':'] + dec_int(x) + tail;
            let acc2 = apply_member(acc, key, JsonScalar::Int(x))->0;
            if tail[0] == '}' {
                parse_members(s, acc) == Some((acc2, tail.drop_first()))
            } else {
                parse_members(s, acc) == parse_members(tail.drop_first(), acc2)
            }
        }),
{
    let s = quoted(key) + seq![':'] + dec_int(x) + tail;
    let acc2 = apply_member(acc, key, JsonScalar::Int(x))->0;
    assert(s[0] == '"');
    assert(skip_ws(s) == s);
    let rest1 = seq![':'] + dec_int(x) + tail;
    assert(s.drop_first() =~= escape_str(key) + seq!['"'] + rest1);
    lemma_parse_string_body_escape(key, rest1);
    assert(parse_string_body(s.drop_first()) == Some((key, rest1)));
    assert(rest1[0] == ':');
    assert(skip_ws(rest1) == rest1);
    let rest2 = dec_int(x) + tail;
    assert(rest1.drop_first() =~= rest2);
    assert(tail[0] as u32 == 44 || tail[0] as u32 == 125);
    assert(!is_dec_digit(tail[0]));
    lemma_parse_int_dec(x, tail);
    if x >= 0 {
        lemma_dec_nat_digits(x);
        assert(dec_int(x) == dec_nat(x));
        assert(rest2[0] == dec_nat(x)[0]);
        assert(is_dec_digit(rest2[0]));
        assert(rest2[0] != '"' && rest2[0] != ' ' && rest2[0] != '\t' && rest2[0] != '\n'
            && rest2[0] != '\r') by {
            assert('"' as u32 == 34);
        }
    } else {
        assert(dec_int(x) == seq!['-'] + dec_nat(-x));
        assert(rest2[0] == '-');
    }
    assert(skip_ws(rest2) == rest2);
    assert(parse_scalar(rest2) == Some((JsonScalar::Int(x), tail)));
    assert(skip_ws(tail) == tail);
    if tail[0] == '}' {
    } else {
        assert(tail.drop_first().len() < s.len()) by {
            assert(quoted(key).len() >= 2);
        }
    }
}

/// Round trip: a login response rendered as JSON and read back comes out
/// structurally equal.  This is stated over the mathematical values; the
/// executable pair [`LoginResponse::to_json`] and
/// [`LoginResponse::from_json`] carry exactly these specifications.
#[verifier::rlimit(100)]
pub proof fn lemma_login_response_json_round_trip(m: LoginResponseView)
    requires
        i32::MIN <= m.expires_in <= i32::MAX,
    ensures
        spec_parse_login_response(json_of_login_response(m)) == Some(m),
{
    reveal_strlit("{\"access_token\":");
    reveal_strlit(",\"token_type\":");
    reveal_strlit(",\"refresh_token\":");
    reveal_strlit(",\"expires_in\":");
    reveal_strlit("}");
    reveal_strlit("access_token");
    reveal_strlit("token_type");
    reveal_strlit("refresh_token");
    reveal_strlit("expires_in");
    let k1 = "access_token"@;
    let k2 = "token_type"@;
    let k3 = "refresh_token"@;
    let k4 = "expires_in"@;
    assert(forall|i: int| 0 <= i < k1.len() ==> is_plain_json_char(#[trigger] k1[i]));
    assert(forall|i: int| 0 <= i < k2.len() ==> is_plain_json_char(#[trigger] k2[i]));
    assert(forall|i: int| 0 <= i < k3.len() ==> is_plain_json_char(#[trigger] k3[i]));
    assert(forall|i: int| 0 <= i < k4.len() ==> is_plain_json_char(#[trigger] k4[i]));
    lemma_escape_plain_id(k1);
    lemma_escape_plain_id(k2);
    lemma_escape_plain_id(k3);
    lemma_escape_plain_id(k4);
    let j = json_of_login_response(m);
    let m4 = quoted(k4) + seq![':'] + dec_int(m.expires_in) + seq!['}'];
    let m3 = quoted(k3) + seq![':'] + quoted(m.refresh_token) + (seq![','] + m4);
    let m2 = quoted(k2) + seq![':'] + quoted(m.token_type) + (seq![','] + m3);
    let m1 = quoted(k1) + seq![':'] + quoted(m.access_token) + (seq![','] + m2);
    assert(j =~= seq!['{'] + m1);
    assert(j[0] == '{');
    assert(skip_ws(j) == j);
    assert(j.drop_first() =~= m1);
    let acc0 = no_fields();
    let acc1 = PartialFields { access_token: Some(m.access_token), ..acc0 };
    let acc2 = PartialFields { token_type: Some(m.token_type), ..acc1 };
    let acc3 = PartialFields { refresh_token: Some(m.refresh_token), ..acc2 };
    let acc4 = PartialFields { expires_in: Some(m.expires_in), ..acc3 };
    assert(apply_member(acc0, k1, JsonScalar::Str(m.access_token)) == Some(acc1));
    assert(k2 != k1 && k2 != k3 && k2 != k4) by {
        assert(k2.len() == 10 && k1.len() == 12 && k3.len() == 13 && k4.len() == 10);
        assert(k2[0] == 't' && k4[0] == 'e');
    }
    assert(apply_member(acc1, k2, JsonScalar::Str(m.token_type)) == Some(acc2));
    assert(k3 != k1) by {
        assert(k3.len() == 13 && k1.len() == 12);
    }
    assert(apply_member(acc2, k3, JsonScalar::Str(m.refresh_token)) == Some(acc3));
    assert(k4 != k1 && k4 != k3) by {
        assert(k4.len() == 10 && k1.len() == 12 && k3.len() == 13);
    }
    assert(apply_member(acc3, k4, JsonScalar::Int(m.expires_in)) == Some(acc4));
    let t1 = seq![','] + m2;
    lemma_member_step_str(k1, m.access_token, t1, acc0);
    assert(t1[0] == ',');
    assert(t1.drop_first() =~= m2);
    assert(parse_members(m1, acc0) == parse_members(m2, acc1));
    let t2 = seq![','] + m3;
    lemma_member_step_str(k2, m.token_type, t2, acc1);
    assert(t2.drop_first() =~= m3);
    assert(parse_members(m2, acc1) == parse_members(m3, acc2));
    let t3 = seq![','] + m4;
    lemma_member_step_str(k3, m.refresh_token, t3, acc2);
    assert(t3.drop_first() =~= m4);
    assert(parse_members(m3, acc2) == parse_members(m4, acc3));
    let t4 = seq!['}'];
    lemma_member_step_int(k4, m.expires_in, t4, acc3);
    assert(t4.drop_first() =~= Seq::<char>::empty());
    assert(parse_members(m4, acc3) == Some((acc4, Seq::<char>::empty())));
    assert(skip_ws(Seq::<char>::empty()).len() == 0);
    assert(spec_parse_login_response(j) == Some(
        LoginResponseView {
            access_token: m.access_token,
            token_type: m.token_type,
            refresh_token: m.refresh_token,
            expires_in: m.expires_in,
        },
    ));
}

fn is_json_ws_char(c: char) -> (r: bool)
    ensures
        r == is_json_ws(c),
{
    c == ' ' || c == '\t' || c == '\n' || c == '\r'
}

fn hex_val_u8(c: char) -> (r: u8)
    requires
        is_hex_digit(c),
    ensures
        r as int == hex_val(c),
        r <= 15,
{
    let u = c as u32;
    if 48 <= u && u <= 57 {
        (u - 48) as u8
    } else if 97 <= u && u <= 102 {
        (u - 87) as u8
    } else {
        (u - 55) as u8
    }
}

fn skip_ws_exec(v: &Vec<char>, i: usize) -> (j: usize)
    requires
        i <= v@.len(),
    ensures
        i <= j <= v@.len(),
        v@.skip(j as int) == skip_ws(v@.skip(i as int)),
{
    let n = v.len();
    let mut j = i;
    while j < n && is_json_ws_char(v[j])
        invariant
            i <= j <= n,
            n == v@.len(),
            skip_ws(v@.skip(i as int)) == skip_ws(v@.skip(j as int)),
        decreases n - j,
    {
        proof {
            assert(v@.skip(j as int)[0] == v@[j as int]);
            assert(v@.skip(j as int).drop_first() =~= v@.skip(j as int + 1));
        }
        j = j + 1;
    }
    proof {
        if j < n {
            assert(v@.skip(j as int)[0] == v@[j as int]);
        }
        assert(skip_ws(v@.skip(j as int)) == v@.skip(j as int));
    }
    j
}

fn parse_string_body_exec(v: &Vec<char>, i: usize) -> (r: Option<(Vec<char>, usize)>)
    requires
        i <= v@.len(),
    ensures
        match r {
            Some((t, j)) => i <= j <= v@.len() && parse_string_body(v@.skip(i as int)) == Some(
                (t@, v@.skip(j as int)),
            ),
            None => parse_string_body(v@.skip(i as int)) is None,
        },
    decreases v@.len() - i,
{
    let n = v.len();
    let ghost s = v@.skip(i as int);
    if i == n {
        return None;
    }
    let c = v[i];
    proof {
        assert(s[0] == v@[i as int]);
        assert(s.drop_first() =~= v@.skip(i as int + 1));
    }
    if c == '"' {
        let t: Vec<char> = Vec::new();
        proof {
            assert(t@ =~= Seq::<char>::empty());
        }
        return Some((t, i + 1));
    }
    if c == '\\' {
        if n - i < 2 {
            return None;
        }
        let e = v[i + 1];
        proof {
            assert(s[1] == v@[i as int + 1]);
        }
        if e == 'u' {
            if n - i < 6 {
                return None;
            }
            proof {
                assert(s[2] == v@[i as int + 2]);
                assert(s[3] == v@[i as int + 3]);
                assert(s[4] == v@[i as int + 4]);
                assert(s[5] == v@[i as int + 5]);
            }
            if !(v[i + 2] == '0' && v[i + 3] == '0' && crate::ip::is_hex_digit_char(v[i + 4])
                && crate::ip::is_hex_digit_char(v[i + 5])) {
                return None;
            }
            let h1 = hex_val_u8(v[i + 4]);
            let h2 = hex_val_u8(v[i + 5]);
            let code: u8 = h1 * 16 + h2;
            let c2 = code as char;
            proof {
                assert(s.skip(6) =~= v@.skip(i as int + 6));
            }
            match parse_string_body_exec(v, i + 6) {
                Some((t, j)) => {
                    let mut t2 = t;
                    t2.insert(0, c2);
                    proof {
                        assert(t2@ =~= seq![c2] + t@);
                        assert(c2 == ((hex_val(s[4]) * 16 + hex_val(s[5])) as u8) as char);
                    }
                    Some((t2, j))
                },
                None => None,
            }
        } else if e == '"' || e == '\\' || e == '/' || e == 'b' || e == 'f' || e == 'n' || e == 'r'
            || e == 't' {
            let c2 = if e == '"' {
                '"'
            } else if e == '\\' {
                '\\'
            } else if e == '/' {
                '/'
            } else if e == 'b' {
                '\u{8}'
            } else if e == 'f' {
                '\u{C}'
            } else if e == 'n' {
                '\n'
            } else if e == 'r' {
                '\r'
            } else {
                '\t'
            };
            proof {
                assert(s.skip(2) =~= v@.skip(i as int + 2));
            }
            match parse_string_body_exec(v, i + 2) {
                Some((t, j)) => {
                    let mut t2 = t;
                    t2.insert(0, c2);
                    proof {
                        assert(t2@ =~= seq![c2] + t@);
                    }
                    Some((t2, j))
                },
                None => None,
            }
        } else {
            None
        }
    } else {
        match parse_string_body_exec(v, i + 1) {
            Some((t, j)) => {
                let mut t2 = t;
                t2.insert(0, c);
                proof {
                    assert(t2@ =~= seq![c] + t@);
                }
                Some((t2, j))
            },
            None => None,
        }
    }
}

fn parse_uint_exec(v: &Vec<char>, i: usize) -> (r: Option<(u64, usize)>)
    requires
        i <= v@.len(),
    ensures
        match r {
            Some((val, j)) => i <= j <= v@.len() && val <= 9999999999 && parse_uint(
                v@.skip(i as int),
            ) == Some((val as int, v@.skip(j as int))),
            None => parse_uint(v@.skip(i as int)) is None,
        },
{
    let n = v.len();
    let ghost s = v@.skip(i as int);
    let mut e = i;
    while e < n && crate::text::is_dec_digit_char(v[e])
        invariant
            i <= e <= n,
            n == v@.len(),
            forall|j: int| i <= j < e ==> is_dec_digit(#[trigger] v@[j]),
        decreases n - e,
    {
        e = e + 1;
    }
    proof {
        assert(forall|j: int| 0 <= j < e - i ==> s[j] == v@[i + j]);
        if e < n {
            assert(s[e - i] == v@[e as int]);
        }
        crate::text::lemma_digit_run_end(s, 0, e - i);
        assert(digit_run_end(s, 0) == e - i);
    }
    let k = e - i;
    if k == 0 {
        return None;
    }
    if k > 10 {
        return None;
    }
    if v[i] == '0' && k > 1 {
        proof {
            assert(s[0] == v@[i as int]);
        }
        return None;
    }
    proof {
        assert(s[0] == v@[i as int]);
    }
    let mut acc: u64 = 0;
    let mut j = i;
    proof {
        assert(v@.subrange(i as int, i as int) =~= Seq::<char>::empty());
        assert(pow10(0) == 1);
        assert(pow10(1) == 10);
        assert(pow10(2) == 100);
        assert(pow10(3) == 1000);
        assert(pow10(4) == 10000);
        assert(pow10(5) == 100000);
        assert(pow10(6) == 1000000);
        assert(pow10(7) == 10000000);
        assert(pow10(8) == 100000000);
        assert(pow10(9) == 1000000000);
        assert(pow10(10) == 10000000000);
    }
    while j < e
        invariant
            i <= j <= e <= n,
            n == v@.len(),
            e - i <= 10,
            forall|t: int| i <= t < e ==> is_dec_digit(#[trigger] v@[t]),
            acc == digits_val(v@.subrange(i as int, j as int)),
            acc < 10000000000,
            pow10(10) == 10000000000,
        decreases e - j,
    {
        let c = v[j];
        proof {
            assert(is_dec_digit(v@[j as int]));
            let t = v@.subrange(i as int, j as int + 1);
            assert(t.drop_last() =~= v@.subrange(i as int, j as int));
            assert(t.last() == v@[j as int]);
            assert(forall|q: int| 0 <= q < t.len() ==> t[q] == #[trigger] v@[i + q]);
            crate::text::lemma_digits_val_bound(t);
            crate::text::lemma_pow10_le(t.len(), 10nat);
        }
        acc = acc * 10 + ((c as u32 - 48) as u64);
        j = j + 1;
    }
    proof {
        assert(s.take(e - i) =~= v@.subrange(i as int, e as int));
        assert(s.skip(e - i) =~= v@.skip(e as int));
    }
    Some((acc, e))
}

fn parse_int_exec(v: &Vec<char>, i: usize) -> (r: Option<(i32, usize)>)
    requires
        i <= v@.len(),
    ensures
        match r {
            Some((x, j)) => i <= j <= v@.len() && parse_int(v@.skip(i as int)) == Some(
                (x as int, v@.skip(j as int)),
            ),
            None => parse_int(v@.skip(i as int)) is None,
        },
{
    let n = v.len();
    let ghost s = v@.skip(i as int);
    if i < n && v[i] == '-' {
        proof {
            assert(s[0] == v@[i as int]);
            assert(s.drop_first() =~= v@.skip(i as int + 1));
        }
        match parse_uint_exec(v, i + 1) {
            Some((val, j)) => {
                if val <= 2147483648 {
                    let x = (-(val as i64)) as i32;
                    Some((x, j))
                } else {
                    None
                }
            },
            None => None,
        }
    } else {
        proof {
            if i < n {
                assert(s[0] == v@[i as int]);
            }
        }
        match parse_uint_exec(v, i) {
            Some((val, j)) => {
                if val <= 2147483647 {
                    Some((val as i32, j))
                } else {
                    None
                }
            },
            None => None,
        }
    }
}

// A parsed member value.
enum ScalarExec {
    Str(Vec<char>),
    Int(i32),
    Bool(bool),
    Null,
}

// The mathematical value of a parsed member value.
spec fn scalar_exec_view(sc: ScalarExec) -> JsonScalar {
    match sc {
        ScalarExec::Str(t) => JsonScalar::Str(t@),
        ScalarExec::Int(x) => JsonScalar::Int(x as int),
        ScalarExec::Bool(b) => JsonScalar::Bool(b),
        ScalarExec::Null => JsonScalar::Null,
    }
}

// Checks whether the four characters of `lit` stand at `i`.
fn lit4_at(v: &Vec<char>, i: usize, c0: char, c1: char, c2: char, c3: char) -> (r: bool)
    requires
        i <= v@.len(),
    ensures
        r == (v@.len() - i >= 4 && v@.skip(i as int)[0] == c0 && v@.skip(i as int)[1] == c1
            && v@.skip(i as int)[2] == c2 && v@.skip(i as int)[3] == c3),
{
    let n = v.len();
    if n - i < 4 {
        return false;
    }
    proof {
        assert(v@.skip(i as int)[0] == v@[i as int]);
        assert(v@.skip(i as int)[1] == v@[i as int + 1]);
        assert(v@.skip(i as int)[2] == v@[i as int + 2]);
        assert(v@.skip(i as int)[3] == v@[i as int + 3]);
    }
    v[i] == c0 && v[i + 1] == c1 && v[i + 2] == c2 && v[i + 3] == c3
}

fn parse_scalar_exec(v: &Vec<char>, i: usize) -> (r: Option<(ScalarExec, usize)>)
    requires
        i <= v@.len(),
    ensures
        match r {
            Some((sc, j)) => i <= j <= v@.len() && parse_scalar(v@.skip(i as int)) == Some(
                (scalar_exec_view(sc), v@.skip(j as int)),
            ),
            None => parse_scalar(v@.skip(i as int)) is None,
        },
{
    let n = v.len();
    let ghost s = v@.skip(i as int);
    if i == n {
        return None;
    }
    let c = v[i];
    proof {
        assert(s[0] == v@[i as int]);
        assert(s.drop_first() =~= v@.skip(i as int + 1));
    }
    if c == '"' {
        match parse_string_body_exec(v, i + 1) {
            Some((t, j)) => Some((ScalarExec::Str(t), j)),
            None => None,
        }
    } else if c == '-' || crate::text::is_dec_digit_char(c) {
        match parse_int_exec(v, i) {
            Some((x, j)) => Some((ScalarExec::Int(x), j)),
            None => None,
        }
    } else {
        let is_true = lit4_at(v, i, 't', 'r', 'u', 'e');
        proof {
            reveal_strlit("true");
            assert(is_true == starts_with(s, "true"@)) by {
                if is_true {
                    assert(s.take(4) =~= "true"@);
                } else if starts_with(s, "true"@) {
                    assert(s[0] == s.take(4)[0] && s[1] == s.take(4)[1] && s[2] == s.take(4)[2]
                        && s[3] == s.take(4)[3]);
                }
            }
        }
        if is_true {
            proof {
                assert(s.skip(4) =~= v@.skip(i as int + 4));
            }
            return Some((ScalarExec::Bool(true), i + 4));
        }
        let is_null = lit4_at(v, i, 'n', 'u', 'l', 'l');
        proof {
            reveal_strlit("null");
            assert(is_null == starts_with(s, "null"@)) by {
                if is_null {
                    assert(s.take(4) =~= "null"@);
                } else if starts_with(s, "null"@) {
                    assert(s[0] == s.take(4)[0] && s[1] == s.take(4)[1] && s[2] == s.take(4)[2]
                        && s[3] == s.take(4)[3]);
                }
            }
        }
        let is_false = n - i >= 5 && lit4_at(v, i, 'f', 'a', 'l', 's') && v[i + 4] == 'e';
        proof {
            reveal_strlit("false");
            if n - i >= 5 {
                assert(s[4] == v@[i as int + 4]);
            }
            assert(is_false == starts_with(s, "false"@)) by {
                if is_false {
                    assert(s.take(5) =~= "false"@);
                } else if starts_with(s, "false"@) {
                    assert(s[0] == s.take(5)[0] && s[1] == s.take(5)[1] && s[2] == s.take(5)[2]
                        && s[3] == s.take(5)[3] && s[4] == s.take(5)[4]);
                }
            }
        }
        if is_false {
            proof {
                assert(s.skip(5) =~= v@.skip(i as int + 5));
            }
            return Some((ScalarExec::Bool(false), i + 5));
        }
        if is_null {
            proof {
                assert(s.skip(4) =~= v@.skip(i as int + 4));
            }
            return Some((ScalarExec::Null, i + 4));
        }
        None
    }
}

// The fields collected so far, as executable values.
struct FieldsExec {
    access_token: Option<Vec<char>>,
    token_type: Option<Vec<char>>,
    refresh_token: Option<Vec<char>>,
    expires_in: Option<i32>,
}

spec fn fields_exec_view(f: FieldsExec) -> PartialFields {
    PartialFields {
        access_token: match f.access_token {
            Some(t) => Some(t@),
            None => None,
        },
        token_type: match f.token_type {
            Some(t) => Some(t@),
            None => None,
        },
        refresh_token: match f.refresh_token {
            Some(t) => Some(t@),
            None => None,
        },
        expires_in: match f.expires_in {
            Some(x) => Some(x as int),
            None => None,
        },
    }
}

// Checks whether `key` spells the same characters as `lit`.
fn key_is(key: &Vec<char>, lit: &str) -> (r: bool)
    ensures
        r == (key@ == lit@),
{
    let l = chars_of(lit);
    if key.len() != l.len() {
        proof {
            assert(key@.len() != lit@.len());
        }
        return false;
    }
    let n = key.len();
    let mut i: usize = 0;
    while i < n
        invariant
            0 <= i <= n,
            n == key@.len(),
            l@ == lit@,
            n == l@.len(),
            forall|j: int| 0 <= j < i ==> key@[j] == lit@[j],
        decreases n - i,
    {
        if key[i] != l[i] {
            return false;
        }
        i = i + 1;
    }
    proof {
        assert(key@ =~= lit@);
    }
    true
}

fn apply_member_exec(acc: FieldsExec, key: &Vec<char>, val: ScalarExec) -> (r: Option<FieldsExec>)
    ensures
        match r {
            Some(f2) => apply_member(fields_exec_view(acc), key@, scalar_exec_view(val)) == Some(
                fields_exec_view(f2),
            ),
            None => apply_member(fields_exec_view(acc), key@, scalar_exec_view(val)) is None,
        },
{
    if key_is(key, "access_token") {
        match val {
            ScalarExec::Str(t) => {
                if acc.access_token.is_none() {
                    Some(FieldsExec { access_token: Some(t), ..acc })
                } else {
                    None
                }
            },
            _ => None,
        }
    } else if key_is(key, "token_type") {
        match val {
            ScalarExec::Str(t) => {
                if acc.token_type.is_none() {
                    Some(FieldsExec { token_type: Some(t), ..acc })
                } else {
                    None
                }
            },
            _ => None,
        }
    } else if key_is(key, "refresh_token") {
        match val {
            ScalarExec::Str(t) => {
                if acc.refresh_token.is_none() {
                    Some(FieldsExec { refresh_token: Some(t), ..acc })
                } else {
                    None
                }
            },
            _ => None,
        }
    } else if key_is(key, "expires_in") {
        match val {
            ScalarExec::Int(x) => {
                if acc.expires_in.is_none() {
                    Some(FieldsExec { expires_in: Some(x), ..acc })
                } else {
                    None
                }
            },
            _ => None,
        }
    } else {
        Some(acc)
    }
}

fn parse_members_exec(v: &Vec<char>, i: usize, acc: FieldsExec) -> (r: Option<(FieldsExec, usize)>)
    requires
        i <= v@.len(),
    ensures
        match r {
            Some((f, j)) => i <= j <= v@.len() && parse_members(
                v@.skip(i as int),
                fields_exec_view(acc),
            ) == Some((fields_exec_view(f), v@.skip(j as int))),
            None => parse_members(v@.skip(i as int), fields_exec_view(acc)) is None,
        },
    decreases v@.len() - i,
{
    let n = v.len();
    let ghost s = v@.skip(i as int);
    let j1 = skip_ws_exec(v, i);
    let ghost s1 = skip_ws(s);
    proof {
        assert(s1 == v@.skip(j1 as int));
    }
    if j1 == n {
        return None;
    }
    proof {
        assert(s1[0] == v@[j1 as int]);
        assert(s1.drop_first() =~= v@.skip(j1 as int + 1));
    }
    if v[j1] != '"' {
        return None;
    }
    match parse_string_body_exec(v, j1 + 1) {
        None => None,
        Some((key, j2)) => {
            let j3 = skip_ws_exec(v, j2);
            let ghost s3 = skip_ws(v@.skip(j2 as int));
            if j3 == n {
                return None;
            }
            proof {
                assert(s3[0] == v@[j3 as int]);
                assert(s3.drop_first() =~= v@.skip(j3 as int + 1));
            }
            if v[j3] != ':' {
                return None;
            }
            let j4 = skip_ws_exec(v, j3 + 1);
            match parse_scalar_exec(v, j4) {
                None => None,
                Some((val, j5)) => {
                    match apply_member_exec(acc, &key, val) {
                        None => None,
                        Some(acc2) => {
                            let j6 = skip_ws_exec(v, j5);
                            let ghost s6 = skip_ws(v@.skip(j5 as int));
                            if j6 == n {
                                return None;
                            }
                            proof {
                                assert(s6[0] == v@[j6 as int]);
                                assert(s6.drop_first() =~= v@.skip(j6 as int + 1));
                            }
                            if v[j6] == '}' {
                                Some((acc2, j6 + 1))
                            } else if v[j6] == ',' {
                                proof {
                                    assert(s6.drop_first().len() < s.len());
                                }
                                parse_members_exec(v, j6 + 1, acc2)
                            } else {
                                None
                            }
                        },
                    }
                },
            }
        },
    }
}

impl LoginResponse {
    /// Renders this response as JSON, as [`json_of_login_response`]
    /// spells it.
    pub fn to_json(&self) -> (r: String)
        ensures
            r@ == json_of_login_response(self@),
    {
        let mut out = String::from_str("{\"access_token\":");
        append_quoted(&mut out, self.access_token.as_str());
        out.append(",\"token_type\":");
        append_quoted(&mut out, self.token_type.as_str());
        out.append(",\"refresh_token\":");
        append_quoted(&mut out, self.refresh_token.as_str());
        out.append(",\"expires_in\":");
        let d = dec_string_i32(self.expires_in);
        out.append(d.as_str());
        out.append("}");
        out
    }

    /// Reads a login response from JSON, as [`spec_parse_login_response`]
    /// spells it; anything else is a malformed body.
    pub fn from_json(s: &str) -> (r: Result<LoginResponse, LogInError>)
        ensures
            match spec_parse_login_response(s@) {
                Some(m) => r matches Ok(lr) && lr@ == m,
                None => r == Err::<LoginResponse, _>(LogInError::MalformedLoginBody),
            },
    {
        let v = chars_of(s);
        let n = v.len();
        proof {
            assert(v@.skip(0) =~= v@);
        }
        let j1 = skip_ws_exec(&v, 0);
        let ghost s1 = skip_ws(v@);
        if j1 == n {
            return Err(LogInError::MalformedLoginBody);
        }
        proof {
            assert(s1[0] == v@[j1 as int]);
            assert(s1.drop_first() =~= v@.skip(j1 as int + 1));
        }
        if v[j1] != '{' {
            return Err(LogInError::MalformedLoginBody);
        }
        let empty = FieldsExec {
            access_token: None,
            token_type: None,
            refresh_token: None,
            expires_in: None,
        };
        proof {
            assert(fields_exec_view(empty) == no_fields());
        }
        match parse_members_exec(&v, j1 + 1, empty) {
            None => Err(LogInError::MalformedLoginBody),
            Some((f, j)) => {
                let j2 = skip_ws_exec(&v, j);
                if j2 != n {
                    proof {
                        assert(skip_ws(v@.skip(j as int)).len() != 0);
                    }
                    return Err(LogInError::MalformedLoginBody);
                }
                proof {
                    assert(skip_ws(v@.skip(j as int)) =~= Seq::<char>::empty());
                }
                match (f.access_token, f.token_type, f.refresh_token, f.expires_in) {
                    (Some(a), Some(tt), Some(rt), Some(e)) => {
                        let lr = LoginResponse {
                            access_token: string_from_chars(&a),
                            token_type: string_from_chars(&tt),
                            refresh_token: string_from_chars(&rt),
                            expires_in: e,
                        };
                        Ok(lr)
                    },
                    _ => Err(LogInError::MalformedLoginBody),
                }
            },
        }
    }
}

} // verus!
