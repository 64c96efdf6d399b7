//! The wire grammar: every message is one compact JSON text. This module
//! defines the rendering of a JSON value to characters, the reading of a
//! rendered text back, and proves that reading undoes rendering.

use vstd::prelude::*;
use crate::numerals::{is_digit, digit_val, dec_of, dec_int_of, digit_run_end, digits_val};
use crate::numerals::{lemma_dec_of_digits, lemma_digit_run, lemma_dec_round};
use crate::protocol::{Json, Jv, Message, MessageV, RequestV, ResponseV, ErrorV};
use vstd::string::StringExecFns;
use vstd::string::StrSliceExecFns;

verus! {

broadcast use vstd::seq::axiom_seq_index_decreases, vstd::seq::axiom_seq_subrange_decreases, vstd::std_specs::vec::axiom_vec_decreases_to_view;

pub open spec fn hex_char(n: nat) -> char {
    if n % 16 < 10 {
        ((48 + n % 16) as u8) as char
    } else {
        ((87 + n % 16) as u8) as char
    }
}

pub open spec fn is_hex(c: char) -> bool {
    is_digit(c) || (0x61 <= c as u32 && c as u32 <= 0x66) || (0x41 <= c as u32 && c as u32
        <= 0x46)
}

pub open spec fn hex_val(c: char) -> nat {
    if is_digit(c) {
        digit_val(c)
    } else if 0x61 <= c as u32 && c as u32 <= 0x66 {
        (c as u32 - 87) as nat
    } else if 0x41 <= c as u32 && c as u32 <= 0x46 {
        (c as u32 - 55) as nat
    } else {
        0
    }
}

/// The whitespace JSON allows between tokens.
pub open spec fn is_ws(c: char) -> bool {
    c == ' ' || c == '\t' || c == '\n' || c == '\r'
}

/// First index at or after `i` holding no whitespace.
pub open spec fn ws_end(s: Seq<char>, i: int) -> int
    decreases s.len() - i,
{
    if i < 0 || i >= s.len() {
        i
    } else if is_ws(s[i]) {
        ws_end(s, i + 1)
    } else {
        i
    }
}

/// How one character of a string is rendered: the two-character named
/// escapes of JSON, a `\u00XX` escape for the remaining control characters,
/// and the character itself otherwise.
pub open spec fn esc_char(c: char) -> Seq<char> {
    if c == '"' {
        seq!['\\', '"']
    } else if c == '\\' {
        seq!['\\', '\\']
    } else if c == '\u{8}' {
        seq!['\\', 'b']
    } else if c == '\u{9}' {
        seq!['\\', 't']
    } else if c == '\u{a}' {
        seq!['\\', 'n']
    } else if c == '\u{c}' {
        seq!['\\', 'f']
    } else if c == '\u{d}' {
        seq!['\\', 'r']
    } else if (c as u32) < 0x20 {
        seq!['\\', 'u', '0', '0', hex_char((c as u32 / 16) as nat), hex_char((c as u32 % 16) as nat)]
    } else {
        seq![c]
    }
}

pub open spec fn escape(s: Seq<char>) -> Seq<char>
    decreases s.len(),
{
    if s.len() == 0 {
        Seq::empty()
    } else {
        esc_char(s[0]) + escape(s.drop_first())
    }
}

/// A rendered string: quoted and escaped.
pub open spec fn ser_str(s: Seq<char>) -> Seq<char> {
    seq!['"'] + escape(s) + seq!['"']
}

/// The canonical rendering of a JSON value: no whitespace, object entries
/// in their held order.
pub open spec fn ser_value(v: Jv) -> Seq<char>
    decreases v,
{
    match v {
        Jv::Null => seq!['n', 'u', 'l', 'l'],
        Jv::Bool(b) => if b {
            seq!['t', 'r', 'u', 'e']
        } else {
            seq!['f', 'a', 'l', 's', 'e']
        },
        Jv::Int(i) => dec_int_of(i),
        Jv::Str(s) => ser_str(s),
        Jv::Arr(a) => seq!['['] + ser_items(a) + seq![']'],
        Jv::Obj(o) => seq!['{'] + ser_entries(o) + seq!['}'],
    }
}

pub open spec fn ser_items(a: Seq<Jv>) -> Seq<char>
    decreases a,
{
    if a.len() == 0 {
        Seq::empty()
    } else if a.len() == 1 {
        ser_value(a[0])
    } else {
        ser_value(a[0]) + seq![','] + ser_items(a.drop_first())
    }
}

pub open spec fn ser_entries(o: Seq<(Seq<char>, Jv)>) -> Seq<char>
    decreases o,
{
    if o.len() == 0 {
        Seq::empty()
    } else if o.len() == 1 {
        ser_str(o[0].0) + seq![':'] + ser_value(o[0].1)
    } else {
        ser_str(o[0].0) + seq![':'] + ser_value(o[0].1) + seq![','] + ser_entries(o.drop_first())
    }
}

/// Which two-character escapes read back to which character.
pub open spec fn unescape_char(e: char) -> Option<char> {
    if e == '"' {
        Some('"')
    } else if e == '\\' {
        Some('\\')
    } else if e == '/' {
        Some('/')
    } else if e == 'b' {
        Some('\u{8}')
    } else if e == 'f' {
        Some('\u{c}')
    } else if e == 'n' {
        Some('\n')
    } else if e == 'r' {
        Some('\r')
    } else if e == 't' {
        Some('\t')
    } else {
        None
    }
}

/// The value of the four hexadecimal digits starting at `i`.
pub open spec fn hex_quad(s: Seq<char>, i: int) -> nat {
    hex_val(s[i]) * 4096 + hex_val(s[i + 1]) * 256 + hex_val(s[i + 2]) * 16 + hex_val(s[i + 3])
}

/// Reads the tail of a `\u` escape, the backslash and the `u` already
/// consumed: four hex digits naming a code point, or a surrogate pair
/// naming one beyond the basic plane.
pub open spec fn ps_unicode_escape(s: Seq<char>, i: int) -> Option<(char, int)> {
    if 0 <= i && i + 4 <= s.len() && is_hex(s[i]) && is_hex(s[i + 1]) && is_hex(s[i + 2])
        && is_hex(s[i + 3]) {
        let code = hex_quad(s, i);
        if code < 0xD800 || code > 0xDFFF {
            Some((code as char, i + 4))
        } else if code <= 0xDBFF {
            if i + 10 <= s.len() && s[i + 4] == '\\' && s[i + 5] == 'u' && is_hex(s[i + 6])
                && is_hex(s[i + 7]) && is_hex(s[i + 8]) && is_hex(s[i + 9]) {
                let lo = hex_quad(s, i + 6);
                if 0xDC00 <= lo && lo <= 0xDFFF {
                    Some(((0x10000 + (code - 0xD800) * 0x400 + (lo - 0xDC00)) as char, i + 10))
                } else {
                    None
                }
            } else {
                None
            }
        } else {
            None
        }
    } else {
        None
    }
}

/// Reads a string body starting after the opening quote; yields the content
/// and the index just past the closing quote.
pub open spec fn ps_string_body(s: Seq<char>, i: int) -> Option<(Seq<char>, int)>
    decreases s.len() - i,
{
    if i < 0 || i >= s.len() {
        None
    } else if s[i] == '"' {
        Some((Seq::empty(), i + 1))
    } else if s[i] == '\\' {
        if i + 1 >= s.len() {
            None
        } else {
            let e = s[i + 1];
            if e == 'u' {
                match ps_unicode_escape(s, i + 2) {
                    Some(u) => {
                        if u.1 <= i + 1 {
                            None
                        } else {
                            match ps_string_body(s, u.1) {
                                Some(p) => Some((seq![u.0] + p.0, p.1)),
                                None => None,
                            }
                        }
                    },
                    None => None,
                }
            } else {
                match unescape_char(e) {
                    Some(c) => match ps_string_body(s, i + 2) {
                        Some(p) => Some((seq![c] + p.0, p.1)),
                        None => None,
                    },
                    None => None,
                }
            }
        }
    } else if (s[i] as u32) < 0x20 {
        None
    } else {
        match ps_string_body(s, i + 1) {
            Some(p) => Some((seq![s[i]] + p.0, p.1)),
            None => None,
        }
    }
}

/// Reads a number: an optional minus, then a digit run; the value must fit
/// a 64-bit signed integer.
pub open spec fn ps_number(s: Seq<char>, i: int) -> Option<(Jv, int)> {
    if 0 <= i && i < s.len() && s[i] == '-' {
        let j = digit_run_end(s, i + 1);
        if j > i + 1 && !(j > i + 2 && s[i + 1] == '0') {
            let m = digits_val(s, i + 1, j);
            if m <= 0x8000000000000000 {
                Some((Jv::Int(-(m as int)), j))
            } else {
                None
            }
        } else {
            None
        }
    } else {
        let j = digit_run_end(s, i);
        if j > i && !(j > i + 1 && s[i] == '0') {
            let m = digits_val(s, i, j);
            if m <= 0x7fffffffffffffff {
                Some((Jv::Int(m as int), j))
            } else {
                None
            }
        } else {
            None
        }
    }
}

/// Reads one JSON value starting at `i`; yields the value and the index
/// just past it.
pub open spec fn ps_value(s: Seq<char>, start: int) -> Option<(Jv, int)>
    decreases s.len() - start, 0int,
{
    let i = ws_end(s, start);
    if i < start || i < 0 || i >= s.len() {
        None
    } else {
        let c = s[i];
        if c == 'n' {
            if i + 4 <= s.len() && s[i + 1] == 'u' && s[i + 2] == 'l' && s[i + 3] == 'l' {
                Some((Jv::Null, i + 4))
            } else {
                None
            }
        } else if c == 't' {
            if i + 4 <= s.len() && s[i + 1] == 'r' && s[i + 2] == 'u' && s[i + 3] == 'e' {
                Some((Jv::Bool(true), i + 4))
            } else {
                None
            }
        } else if c == 'f' {
            if i + 5 <= s.len() && s[i + 1] == 'a' && s[i + 2] == 'l' && s[i + 3] == 's' && s[i
                + 4] == 'e' {
                Some((Jv::Bool(false), i + 5))
            } else {
                None
            }
        } else if c == '"' {
            match ps_string_body(s, i + 1) {
                Some(p) => Some((Jv::Str(p.0), p.1)),
                None => None,
            }
        } else if c == '-' || is_digit(c) {
            ps_number(s, i)
        } else if c == '[' {
            if i + 1 < s.len() && s[i + 1] == ']' {
                Some((Jv::Arr(Seq::empty()), i + 2))
            } else {
                match ps_items(s, i + 1) {
                    Some(p) => Some((Jv::Arr(p.0), p.1)),
                    None => None,
                }
            }
        } else if c == '{' {
            if i + 1 < s.len() && s[i + 1] == '}' {
                Some((Jv::Obj(Seq::empty()), i + 2))
            } else {
                match ps_entries(s, i + 1) {
                    Some(p) => Some((Jv::Obj(p.0), p.1)),
                    None => None,
                }
            }
        } else {
            None
        }
    }
}

/// Reads the items of a non-empty array, closing bracket included.
pub open spec fn ps_items(s: Seq<char>, i: int) -> Option<(Seq<Jv>, int)>
    decreases s.len() - i, 1int,
{
    match ps_value(s, i) {
        Some(p) => {
            let v = p.0;
            let j = p.1;
            if j <= i || j > s.len() {
                None
            } else {
                let m = ws_end(s, j);
                if m < j || m > s.len() {
                    None
                } else if m < s.len() && s[m] == ',' {
                    match ps_items(s, m + 1) {
                        Some(q) => Some((seq![v] + q.0, q.1)),
                        None => None,
                    }
                } else if m < s.len() && s[m] == ']' {
                    Some((seq![v], m + 1))
                } else {
                    None
                }
            }
        },
        None => None,
    }
}

/// Reads the entries of a non-empty object, closing brace included.
pub open spec fn ps_entries(s: Seq<char>, start: int) -> Option<(Seq<(Seq<char>, Jv)>, int)>
    decreases s.len() - start, 1int,
{
    let i = ws_end(s, start);
    if start <= i && 0 <= i && i < s.len() && s[i] == '"' {
        match ps_string_body(s, i + 1) {
            Some(p) => {
                let k = p.0;
                let j = p.1;
                if j <= i + 1 || j > s.len() {
                    None
                } else {
                    let b = ws_end(s, j);
                    if b < j || b >= s.len() || s[b] != ':' {
                        None
                    } else {
                        match ps_value(s, b + 1) {
                            Some(q) => {
                                let v = q.0;
                                let m = q.1;
                                if m <= b + 1 || m > s.len() {
                                    None
                                } else {
                                    let c = ws_end(s, m);
                                    if c < m || c > s.len() {
                                        None
                                    } else if c < s.len() && s[c] == ',' {
                                        match ps_entries(s, c + 1) {
                                            Some(r) => Some((seq![(k, v)] + r.0, r.1)),
                                            None => None,
                                        }
                                    } else if c < s.len() && s[c] == '}' {
                                        Some((seq![(k, v)], c + 1))
                                    } else {
                                        None
                                    }
                                }
                            },
                            None => None,
                        }
                    }
                }
            },
            None => None,
        }
    } else {
        None
    }
}

/// Reads a whole text as one JSON value: nothing may follow it.
pub open spec fn ps_root(s: Seq<char>) -> Option<Jv> {
    match ps_value(s, 0) {
        Some(p) => if ws_end(s, p.1) == s.len() {
            Some(p.0)
        } else {
            None
        },
        None => None,
    }
}

/// A value the renderer can speak for: every number fits 64 signed bits.
/// The view of every held `Json` value is of this kind.
pub open spec fn wf_jv(v: Jv) -> bool
    decreases v,
{
    match v {
        Jv::Int(i) => -0x8000000000000000 <= i <= 0x7fffffffffffffff,
        Jv::Arr(a) => forall|k: int| 0 <= k < a.len() ==> wf_jv(#[trigger] a[k]),
        Jv::Obj(o) => forall|k: int| 0 <= k < o.len() ==> wf_jv(#[trigger] o[k].1),
        _ => true,
    }
}

/// `s` holds the text `t` starting at `i`.
pub open spec fn agrees(s: Seq<char>, i: int, t: Seq<char>) -> bool {
    0 <= i && i + t.len() <= s.len() && forall|k: int|
        0 <= k < t.len() ==> s[i + k] == #[trigger] t[k]
}

proof fn lemma_agrees_split(s: Seq<char>, i: int, a: Seq<char>, b: Seq<char>)
    requires
        agrees(s, i, a + b),
    ensures
        agrees(s, i, a),
        agrees(s, i + a.len(), b),
{
    assert forall|k: int| 0 <= k < a.len() implies s[i + k] == #[trigger] a[k] by {
        assert((a + b)[k] == a[k]);
        assert(s[i + k] == (a + b)[k]);
    }
    assert forall|k: int| 0 <= k < b.len() implies s[i + a.len() + k] == #[trigger] b[k] by {
        assert((a + b)[a.len() + k] == b[k]);
        assert(s[i + (a.len() + k)] == (a + b)[a.len() + k]);
    }
}

/// Two characters with one code point are one character.
proof fn lemma_char_eq(c1: char, c2: char)
    requires
        c1 as u32 == c2 as u32,
    ensures
        c1 == c2,
{
}

proof fn lemma_hex_char(n: nat)
    ensures
        is_hex(hex_char(n)),
        hex_val(hex_char(n)) == n % 16,
{
}

/// Every rendered value is non-empty and starts with a character that opens
/// a value: never a delimiter.
proof fn lemma_ser_first(v: Jv)
    ensures
        ser_value(v).len() >= 1,
        ({
            let c = ser_value(v)[0];
            c == 'n' || c == 't' || c == 'f' || c == '"' || c == '[' || c == '{' || c == '-'
                || is_digit(c)
        }),
{
    match v {
        Jv::Int(i) => {
            if i >= 0 {
                lemma_dec_of_digits(i as nat);
                assert(ser_value(v)[0] == dec_of(i as nat)[0]);
            } else {
                lemma_dec_of_digits((-i) as nat);
                assert(ser_value(v)[0] == '-');
            }
        },
        _ => {},
    }
}

/// Reading a rendered, quoted string body yields its content: the core of
/// the round trip for strings.
proof fn lemma_str_round(s: Seq<char>, i: int, content: Seq<char>)
    requires
        agrees(s, i, escape(content) + seq!['"']),
    ensures
        ps_string_body(s, i) == Some((content, i + escape(content).len() + 1)),
    decreases content.len(),
{
    if content.len() == 0 {
        assert(s[i + 0] == (escape(content) + seq!['"'])[0]);
        assert(s[i] == '"');
    } else {
        let c0 = content[0];
        let rest = content.drop_first();
        let e0 = esc_char(c0);
        let tail = escape(rest) + seq!['"'];
        assert(escape(content) == e0 + escape(rest));
        assert(escape(content) + seq!['"'] =~= e0 + tail);
        lemma_agrees_split(s, i, e0, tail);
        lemma_str_round(s, i + e0.len(), rest);
        assert(seq![c0] + rest =~= content);
        if c0 == '"' || c0 == '\\' || c0 == '\u{8}' || c0 == '\u{9}' || c0 == '\u{a}' || c0
            == '\u{c}' || c0 == '\u{d}' {
            assert(s[i + 0] == e0[0]);
            assert(s[i + 1] == e0[1]);
            assert(s[i] == '\\');
            assert(unescape_char(s[i + 1]) == Some(c0));
        } else if (c0 as u32) < 0x20 {
            let hi = (c0 as u32 / 16) as nat;
            let lo = (c0 as u32 % 16) as nat;
            lemma_hex_char(hi);
            lemma_hex_char(lo);
            assert(s[i + 0] == e0[0]);
            assert(s[i + 1] == e0[1]);
            assert(s[i + 2] == e0[2]);
            assert(s[i + 3] == e0[3]);
            assert(s[i + 4] == e0[4]);
            assert(s[i + 5] == e0[5]);
            assert(s[i] == '\\' && s[i + 1] == 'u' && s[i + 2] == '0' && s[i + 3] == '0');
            assert(is_hex('0') && hex_val('0') == 0);
            assert(s[i + 4] == hex_char(hi) && s[i + 5] == hex_char(lo));
            assert(hex_val(s[i + 4]) == hi % 16 && hex_val(s[i + 5]) == lo % 16);
            assert(hi % 16 == hi && lo % 16 == lo);
            let code = hex_quad(s, i + 2);
            assert(code == c0 as u32);
            assert(code < 0x20);
            let c = code as char;
            assert(c as u32 == c0 as u32);
            lemma_char_eq(c, c0);
            assert(c == c0);
            assert(ps_unicode_escape(s, i + 2) == Some((c0, i + 6)));
        } else {
            assert(s[i + 0] == e0[0]);
            assert(s[i] == c0);
        }
    }
}

/// Reading a rendered value embedded in a larger text yields that value,
/// provided no digit follows it (a digit would extend a rendered number).
#[verifier::rlimit(100)]
pub proof fn lemma_value_round(s: Seq<char>, i: int, v: Jv)
    requires
        wf_jv(v),
        agrees(s, i, ser_value(v)),
        i + ser_value(v).len() == s.len() || !is_digit(s[i + ser_value(v).len()]),
    ensures
        ps_value(s, i) == Some((v, i + ser_value(v).len())),
    decreases v, 0int,
{
    let e = ser_value(v);
    let end = i + e.len();
    lemma_ser_first(v);
    assert(s[i + 0] == e[0]);
    match v {
        Jv::Null => {
            assert(s[i + 1] == e[1]);
            assert(s[i + 2] == e[2]);
            assert(s[i + 3] == e[3]);
            assert(ps_value(s, i) == Some((Jv::Null, i + 4)));
        },
        Jv::Bool(b) => {
            assert(s[i + 1] == e[1]);
            assert(s[i + 2] == e[2]);
            assert(s[i + 3] == e[3]);
            if !b {
                assert(s[i + 4] == e[4]);
                assert(ps_value(s, i) == Some((Jv::Bool(false), i + 5)));
            } else {
                assert(ps_value(s, i) == Some((Jv::Bool(true), i + 4)));
            }
        },
        Jv::Int(n) => {
            if n >= 0 {
                let d = dec_of(n as nat);
                lemma_dec_of_digits(n as nat);
                crate::numerals::lemma_dec_of_no_leading_zero(n as nat);
                assert(is_digit(s[i]));
                assert forall|k: int| i <= k < end implies is_digit(#[trigger] s[k]) by {
                    let k2 = k - i;
                    assert(s[i + k2] == d[k2]);
                    assert(is_digit(d[k2]));
                }
                lemma_digit_run(s, i, end);
                lemma_dec_round(s, i, n as nat);
                assert(ps_value(s, i) == Some((Jv::Int(n), end)));
            } else {
                let mag = (-n) as nat;
                let d = dec_of(mag);
                lemma_dec_of_digits(mag);
                crate::numerals::lemma_dec_of_no_leading_zero(mag);
                assert(e =~= seq!['-'] + d);
                assert(s[i] == '-');
                lemma_agrees_split(s, i, seq!['-'], d);
                assert forall|k: int| i + 1 <= k < end implies is_digit(#[trigger] s[k]) by {
                    let k2 = k - i - 1;
                    assert(s[i + 1 + k2] == d[k2]);
                    assert(is_digit(d[k2]));
                }
                lemma_digit_run(s, i + 1, end);
                lemma_dec_round(s, i + 1, mag);
                assert(digits_val(s, i + 1, end) == mag);
                assert(ps_value(s, i) == Some((Jv::Int(n), end)));
            }
        },
        Jv::Str(st) => {
            assert(e =~= seq!['"'] + (escape(st) + seq!['"']));
            lemma_agrees_split(s, i, seq!['"'], escape(st) + seq!['"']);
            lemma_str_round(s, i + 1, st);
            assert(ps_value(s, i) == Some((Jv::Str(st), end)));
        },
        Jv::Arr(a) => {
            if a.len() == 0 {
                assert(s[i + 1] == e[1]);
                assert(s[i + 1] == ']');
                assert(a =~= Seq::<Jv>::empty());
                assert(ps_value(s, i) == Some((Jv::Arr(a), i + 2)));
            } else {
                assert(e =~= seq!['['] + (ser_items(a) + seq![']']));
                lemma_agrees_split(s, i, seq!['['], ser_items(a) + seq![']']);
                lemma_ser_first(a[0]);
                assert(ser_items(a)[0] == ser_value(a[0])[0]);
                assert(s[i + 1] == (ser_items(a) + seq![']'])[0]);
                assert(s[i + 1] != ']');
                lemma_items_round(s, i + 1, a);
                assert(ps_value(s, i) == Some((Jv::Arr(a), end)));
            }
        },
        Jv::Obj(o) => {
            if o.len() == 0 {
                assert(s[i + 1] == e[1]);
                assert(s[i + 1] == '}');
                assert(o =~= Seq::<(Seq<char>, Jv)>::empty());
                assert(ps_value(s, i) == Some((Jv::Obj(o), i + 2)));
            } else {
                assert(e =~= seq!['{'] + (ser_entries(o) + seq!['}']));
                lemma_agrees_split(s, i, seq!['{'], ser_entries(o) + seq!['}']);
                assert(ser_entries(o)[0] == '"');
                assert(s[i + 1] == (ser_entries(o) + seq!['}'])[0]);
                lemma_entries_round(s, i + 1, o);
                assert(ps_value(s, i) == Some((Jv::Obj(o), end)));
            }
        },
    }
}

/// Reading the rendered items of a non-empty array consumes them and the
/// closing bracket.
#[verifier::rlimit(60)]
proof fn lemma_items_round(s: Seq<char>, i: int, a: Seq<Jv>)
    requires
        a.len() >= 1,
        forall|k: int| 0 <= k < a.len() ==> wf_jv(#[trigger] a[k]),
        agrees(s, i, ser_items(a) + seq![']']),
    ensures
        ps_items(s, i) == Some((a, i + ser_items(a).len() + 1)),
    decreases a, 1int,
{
    let v0 = a[0];
    let e0 = ser_value(v0);
    lemma_ser_first(v0);
    if a.len() == 1 {
        assert(ser_items(a) == e0);
        lemma_agrees_split(s, i, e0, seq![']']);
        assert(s[i + e0.len() + 0] == seq![']'][0]);
        lemma_value_round(s, i, v0);
        let j = i + e0.len();
        assert(s[j] == ']');
        assert(ps_items(s, i) == Some((seq![v0], j + 1)));
        assert(seq![v0] =~= a);
    } else {
        let rest = a.drop_first();
        assert(rest.len() >= 1);
        assert(forall|k: int| 0 <= k < rest.len() ==> wf_jv(#[trigger] rest[k])) by {
            assert(forall|k: int| 0 <= k < rest.len() ==> #[trigger] rest[k] == a[k + 1]);
        }
        let tail = ser_items(rest) + seq![']'];
        assert(ser_items(a) == e0 + seq![','] + ser_items(rest));
        assert(ser_items(a) + seq![']'] =~= e0 + (seq![','] + tail));
        lemma_agrees_split(s, i, e0, seq![','] + tail);
        let j = i + e0.len();
        lemma_agrees_split(s, j, seq![','], tail);
        assert(s[j + 0] == (seq![','] + tail)[0]);
        assert(s[j] == ',');
        lemma_value_round(s, i, v0);
        lemma_items_round(s, j + 1, rest);
        assert(ps_items(s, i) == Some((seq![v0] + rest, j + 1 + ser_items(rest).len() + 1)));
        assert(seq![v0] + rest =~= a);
        assert(j + 1 + ser_items(rest).len() + 1 == i + ser_items(a).len() + 1);
    }
}

/// Reading the rendered entries of a non-empty object consumes them and the
/// closing brace.
#[verifier::rlimit(60)]
proof fn lemma_entries_round(s: Seq<char>, i: int, o: Seq<(Seq<char>, Jv)>)
    requires
        o.len() >= 1,
        forall|k: int| 0 <= k < o.len() ==> wf_jv(#[trigger] o[k].1),
        agrees(s, i, ser_entries(o) + seq!['}']),
    ensures
        ps_entries(s, i) == Some((o, i + ser_entries(o).len() + 1)),
    decreases o, 1int,
{
    let k0 = o[0].0;
    let v0 = o[0].1;
    let ks = ser_str(k0);
    let e0 = ser_value(v0);
    lemma_ser_first(v0);
    let entry = ks + seq![':'] + e0;
    let after = if o.len() == 1 {
        seq!['}']
    } else {
        seq![','] + (ser_entries(o.drop_first()) + seq!['}'])
    };
    assert(ser_entries(o) + seq!['}'] =~= entry + after) by {
        if o.len() == 1 {
            assert(ser_entries(o) == ks + seq![':'] + e0);
        } else {
            assert(ser_entries(o) == ks + seq![':'] + e0 + seq![','] + ser_entries(
                o.drop_first(),
            ));
        }
    }
    lemma_agrees_split(s, i, entry, after);
    assert(entry =~= seq!['"'] + ((escape(k0) + seq!['"']) + (seq![':'] + e0)));
    lemma_agrees_split(s, i, seq!['"'], (escape(k0) + seq!['"']) + (seq![':'] + e0));
    lemma_agrees_split(s, i + 1, escape(k0) + seq!['"'], seq![':'] + e0);
    assert(s[i + 0] == entry[0]);
    assert(s[i] == '"');
    lemma_str_round(s, i + 1, k0);
    let j = i + 1 + escape(k0).len() + 1;
    assert(s[j + 0] == (seq![':'] + e0)[0]);
    assert(s[j] == ':');
    lemma_agrees_split(s, j, seq![':'], e0);
    let m = j + 1 + e0.len();
    assert(agrees(s, j + 1, e0));
    if o.len() == 1 {
        assert(s[m + 0] == after[0]);
        assert(s[m] == '}');
        lemma_value_round(s, j + 1, v0);
        assert(ps_entries(s, i) == Some((seq![(k0, v0)], m + 1)));
        assert(seq![(k0, v0)] =~= o);
        assert((k0, v0) == o[0]);
        assert(m + 1 == i + ser_entries(o).len() + 1);
    } else {
        let rest = o.drop_first();
        assert(forall|k: int| 0 <= k < rest.len() ==> wf_jv(#[trigger] rest[k].1)) by {
            assert(forall|k: int| 0 <= k < rest.len() ==> #[trigger] rest[k] == o[k + 1]);
        }
        assert(s[m + 0] == after[0]);
        assert(s[m] == ',');
        lemma_value_round(s, j + 1, v0);
        lemma_agrees_split(s, m, seq![','], ser_entries(rest) + seq!['}']);
        lemma_entries_round(s, m + 1, rest);
        assert(ps_entries(s, i) == Some((seq![(k0, v0)] + rest, m + 1 + ser_entries(rest).len()
            + 1)));
        assert(seq![(k0, v0)] + rest =~= o);
        assert(m + 1 + ser_entries(rest).len() + 1 == i + ser_entries(o).len() + 1);
    }
}

/// The round trip at the level of whole texts: reading a rendered value
/// yields exactly that value.
pub proof fn lemma_root_round(v: Jv)
    requires
        wf_jv(v),
    ensures
        ps_root(ser_value(v)) == Some(v),
{
    let s = ser_value(v);
    lemma_value_round(s, 0, v);
}

pub open spec fn key_id() -> Seq<char> {
    seq!['i', 'd']
}

pub open spec fn key_method() -> Seq<char> {
    seq!['m', 'e', 't', 'h', 'o', 'd']
}

pub open spec fn key_params() -> Seq<char> {
    seq!['p', 'a', 'r', 'a', 'm', 's']
}

pub open spec fn key_result() -> Seq<char> {
    seq!['r', 'e', 's', 'u', 'l', 't']
}

pub open spec fn key_error() -> Seq<char> {
    seq!['e', 'r', 'r', 'o', 'r']
}

pub open spec fn key_code() -> Seq<char> {
    seq!['c', 'o', 'd', 'e']
}

pub open spec fn key_message() -> Seq<char> {
    seq!['m', 'e', 's', 's', 'a', 'g', 'e']
}

/// The first value under `k`, if any.
pub open spec fn obj_lookup(o: Seq<(Seq<char>, Jv)>, k: Seq<char>) -> Option<Jv>
    decreases o.len(),
{
    if o.len() == 0 {
        None
    } else if o[0].0 == k {
        Some(o[0].1)
    } else {
        obj_lookup(o.drop_first(), k)
    }
}

/// The object shape of a request.
pub open spec fn jv_of_req(r: RequestV) -> Jv {
    Jv::Obj(
        seq![
            (key_id(), Jv::Str(r.id)),
            (key_method(), Jv::Str(r.method)),
            (key_params(), r.params),
        ],
    )
}

/// The object shape of a response: `result` or `error`, never both.
pub open spec fn jv_of_resp(r: ResponseV) -> Jv {
    match r {
        ResponseV::Success { id, result } => Jv::Obj(
            seq![(key_id(), Jv::Str(id)), (key_result(), result)],
        ),
        ResponseV::Failure { id, error } => Jv::Obj(
            seq![
                (key_id(), Jv::Str(id)),
                (
                    key_error(),
                    Jv::Obj(
                        seq![
                            (key_code(), Jv::Str(error.code)),
                            (key_message(), Jv::Str(error.message)),
                        ],
                    ),
                ),
            ],
        ),
    }
}

pub open spec fn jv_of_msg(m: MessageV) -> Jv {
    match m {
        MessageV::Request(r) => jv_of_req(r),
        MessageV::Response(r) => jv_of_resp(r),
    }
}

/// Reads a request from a JSON value: an object holding exactly `id`,
/// `method` and `params`, the first two strings.
pub open spec fn req_of_jv(v: Jv) -> Option<RequestV> {
    match v {
        Jv::Obj(o) => if o.len() == 3 {
            match (obj_lookup(o, key_id()), obj_lookup(o, key_method()), obj_lookup(
                o,
                key_params(),
            )) {
                (Some(Jv::Str(id)), Some(Jv::Str(method)), Some(params)) => Some(
                    RequestV { id, method, params },
                ),
                _ => None,
            }
        } else {
            None
        },
        _ => None,
    }
}

/// Reads an error from a JSON value: an object whose first `code` and
/// `message` entries are strings.
pub open spec fn err_of_jv(v: Jv) -> Option<ErrorV> {
    match v {
        Jv::Obj(o) => match (obj_lookup(o, key_code()), obj_lookup(o, key_message())) {
            (Some(Jv::Str(code)), Some(Jv::Str(message))) => Some(ErrorV { code, message }),
            _ => None,
        },
        _ => None,
    }
}

/// Reads a response from a JSON value: an object holding exactly `id` and
/// one of `result` or `error`.
pub open spec fn resp_of_jv(v: Jv) -> Option<ResponseV> {
    match v {
        Jv::Obj(o) => if o.len() == 2 {
            match obj_lookup(o, key_id()) {
                Some(Jv::Str(id)) => match obj_lookup(o, key_result()) {
                    Some(result) => Some(ResponseV::Success { id, result }),
                    None => match obj_lookup(o, key_error()) {
                        Some(e) => match err_of_jv(e) {
                            Some(error) => Some(ResponseV::Failure { id, error }),
                            None => None,
                        },
                        None => None,
                    },
                },
                _ => None,
            }
        } else {
            None
        },
        _ => None,
    }
}

/// The union is untagged: a value that reads as a request is one; otherwise
/// it may read as a response.
pub open spec fn msg_of_jv(v: Jv) -> Option<MessageV> {
    match req_of_jv(v) {
        Some(r) => Some(MessageV::Request(r)),
        None => match resp_of_jv(v) {
            Some(r) => Some(MessageV::Response(r)),
            None => None,
        },
    }
}

/// The rendering of a whole message.
pub open spec fn ser_msg(m: MessageV) -> Seq<char> {
    ser_value(jv_of_msg(m))
}

/// Reading one line of wire text: a whole JSON value carrying a message.
pub open spec fn parse_msg(s: Seq<char>) -> Option<MessageV> {
    match ps_root(s) {
        Some(v) => msg_of_jv(v),
        None => None,
    }
}

/// A message whose open payload is renderable.
pub open spec fn wf_msg(m: MessageV) -> bool {
    match m {
        MessageV::Request(r) => wf_jv(r.params),
        MessageV::Response(ResponseV::Success { result, .. }) => wf_jv(result),
        MessageV::Response(ResponseV::Failure { .. }) => true,
    }
}

/// A message's object shape reads back as the message itself.
proof fn lemma_msg_of_jv_round(m: MessageV)
    ensures
        msg_of_jv(jv_of_msg(m)) == Some(m),
{
    match m {
        MessageV::Request(r) => {
            let o = seq![
                (key_id(), Jv::Str(r.id)),
                (key_method(), Jv::Str(r.method)),
                (key_params(), r.params),
            ];
            assert(obj_lookup(o, key_id()) == Some(Jv::Str(r.id)));
            assert(obj_lookup(o.drop_first(), key_method()) == Some(Jv::Str(r.method)));
            assert(obj_lookup(o, key_method()) == Some(Jv::Str(r.method)));
            assert(obj_lookup(o.drop_first().drop_first(), key_params()) == Some(r.params));
            assert(obj_lookup(o.drop_first(), key_params()) == Some(r.params));
            assert(obj_lookup(o, key_params()) == Some(r.params));
        },
        MessageV::Response(resp) => {
            let v = jv_of_resp(resp);
            match resp {
                ResponseV::Success { id, result } => {
                    let o = seq![(key_id(), Jv::Str(id)), (key_result(), result)];
                    assert(req_of_jv(v) is None);
                    assert(obj_lookup(o, key_id()) == Some(Jv::Str(id)));
                    assert(obj_lookup(o.drop_first(), key_result()) == Some(result));
                    assert(obj_lookup(o, key_result()) == Some(result));
                },
                ResponseV::Failure { id, error } => {
                    let eo = seq![
                        (key_code(), Jv::Str(error.code)),
                        (key_message(), Jv::Str(error.message)),
                    ];
                    let o = seq![(key_id(), Jv::Str(id)), (key_error(), Jv::Obj(eo))];
                    assert(req_of_jv(v) is None);
                    assert(obj_lookup(o, key_id()) == Some(Jv::Str(id)));
                    assert(o.drop_first().drop_first() =~= Seq::<(Seq<char>, Jv)>::empty());
                    assert(obj_lookup(o.drop_first().drop_first(), key_result()) is None);
                    assert(key_error() != key_result());
                    assert(obj_lookup(o.drop_first(), key_result()) is None);
                    assert(obj_lookup(o, key_result()) is None);
                    assert(obj_lookup(o.drop_first(), key_error()) == Some(Jv::Obj(eo)));
                    assert(obj_lookup(o, key_error()) == Some(Jv::Obj(eo)));
                    assert(obj_lookup(eo, key_code()) == Some(Jv::Str(error.code)));
                    assert(obj_lookup(eo.drop_first(), key_message()) == Some(
                        Jv::Str(error.message),
                    ));
                    assert(obj_lookup(eo, key_message()) == Some(Jv::Str(error.message)));
                    assert(err_of_jv(Jv::Obj(eo)) == Some(error));
                },
            }
        },
    }
}

/// Round trip for whole messages: rendering then reading yields the same
/// message, for every message whose payload is renderable.
#[verifier::rlimit(60)]
pub proof fn lemma_msg_round_trip(m: MessageV)
    requires
        wf_msg(m),
    ensures
        parse_msg(ser_msg(m)) == Some(m),
{
    let v = jv_of_msg(m);
    assert(wf_jv(v)) by {
        match m {
            MessageV::Request(r) => {
                let o = jv_of_req(r)->Obj_0;
                assert(forall|k: int| 0 <= k < o.len() ==> wf_jv(#[trigger] o[k].1));
            },
            MessageV::Response(resp) => {
                match resp {
                    ResponseV::Success { id, result } => {
                        let o = jv_of_resp(resp)->Obj_0;
                        assert(forall|k: int| 0 <= k < o.len() ==> wf_jv(#[trigger] o[k].1));
                    },
                    ResponseV::Failure { id, error } => {
                        let eo = seq![
                            (key_code(), Jv::Str(error.code)),
                            (key_message(), Jv::Str(error.message)),
                        ];
                        assert(forall|k: int| 0 <= k < eo.len() ==> wf_jv(#[trigger] eo[k].1));
                        let o = jv_of_resp(resp)->Obj_0;
                        assert(forall|k: int| 0 <= k < o.len() ==> wf_jv(#[trigger] o[k].1));
                    },
                }
            },
        }
    }
    lemma_root_round(v);
    lemma_msg_of_jv_round(m);
}

proof fn lemma_escape_snoc(t: Seq<char>, c: char)
    ensures
        escape(t.push(c)) == escape(t) + esc_char(c),
    decreases t.len(),
{
    if t.len() == 0 {
        assert(t.push(c)[0] == c);
        assert(t.push(c).drop_first() =~= Seq::<char>::empty());
        assert(escape(t) == Seq::<char>::empty());
        assert(escape(t.push(c).drop_first()) == Seq::<char>::empty());
        assert(escape(t.push(c)) =~= escape(t) + esc_char(c));
    } else {
        assert(t.push(c)[0] == t[0]);
        assert(t.push(c).drop_first() =~= t.drop_first().push(c));
        lemma_escape_snoc(t.drop_first(), c);
        assert(escape(t.push(c)) =~= escape(t) + esc_char(c));
    }
}

proof fn lemma_ser_items_snoc(t: Seq<Jv>, x: Jv)
    ensures
        t.len() == 0 ==> ser_items(t.push(x)) == ser_value(x),
        t.len() > 0 ==> ser_items(t.push(x)) == ser_items(t) + seq![','] + ser_value(x),
    decreases t.len(),
{
    if t.len() == 0 {
        assert(t.push(x)[0] == x);
    } else {
        assert(t.push(x).drop_first() =~= t.drop_first().push(x));
        lemma_ser_items_snoc(t.drop_first(), x);
        if t.len() == 1 {
            assert(ser_items(t.push(x)) =~= ser_items(t) + seq![','] + ser_value(x));
        } else {
            assert(ser_items(t.push(x)) =~= ser_items(t) + seq![','] + ser_value(x));
        }
    }
}

proof fn lemma_ser_entries_snoc(t: Seq<(Seq<char>, Jv)>, x: (Seq<char>, Jv))
    ensures
        t.len() == 0 ==> ser_entries(t.push(x)) == ser_str(x.0) + seq![':'] + ser_value(x.1),
        t.len() > 0 ==> ser_entries(t.push(x)) == ser_entries(t) + seq![','] + ser_str(x.0)
            + seq![':'] + ser_value(x.1),
    decreases t.len(),
{
    if t.len() == 0 {
        assert(t.push(x)[0] == x);
    } else {
        assert(t.push(x).drop_first() =~= t.drop_first().push(x));
        lemma_ser_entries_snoc(t.drop_first(), x);
        if t.len() == 1 {
            assert(ser_entries(t.push(x)) =~= ser_entries(t) + seq![','] + ser_str(x.0)
                + seq![':'] + ser_value(x.1));
        } else {
            assert(ser_entries(t.push(x)) =~= ser_entries(t) + seq![','] + ser_str(x.0)
                + seq![':'] + ser_value(x.1));
        }
    }
}

/// Appends the escaped form of `s` onto `out`.
#[verifier::loop_isolation(false)]
fn write_escaped(s: &str, out: &mut Vec<char>)
    ensures
        final(out)@ == old(out)@ + escape(s@),
{
    let n = s.unicode_len();
    let mut k: usize = 0;
    while k < n
        invariant
            k <= n,
            out@ == old(out)@ + escape(s@.take(k as int)),
        decreases n - k,
    {
        let c = s.get_char(k);
        proof {
            assert(s@.take(k as int + 1) =~= s@.take(k as int).push(c));
            lemma_escape_snoc(s@.take(k as int), c);
        }
        let u = c as u32;
        if c == '"' {
            out.push('\\');
            out.push('"');
        } else if c == '\\' {
            out.push('\\');
            out.push('\\');
        } else if u == 0x8 {
            out.push('\\');
            out.push('b');
        } else if u == 0x9 {
            out.push('\\');
            out.push('t');
        } else if u == 0xa {
            out.push('\\');
            out.push('n');
        } else if u == 0xc {
            out.push('\\');
            out.push('f');
        } else if u == 0xd {
            out.push('\\');
            out.push('r');
        } else if u < 0x20 {
            out.push('\\');
            out.push('u');
            out.push('0');
            out.push('0');
            let hi = (u / 16) as u8;
            let lo = (u % 16) as u8;
            let hc = if hi < 10 {
                (48 + hi) as char
            } else {
                (87 + hi) as char
            };
            let lc = if lo < 10 {
                (48 + lo) as char
            } else {
                (87 + lo) as char
            };
            proof {
                assert(hc == hex_char((u / 16) as nat));
                assert(lc == hex_char((u % 16) as nat));
            }
            out.push(hc);
            out.push(lc);
        } else {
            out.push(c);
        }
        proof {
            assert(out@ =~= old(out)@ + escape(s@.take(k as int + 1)));
        }
        k += 1;
    }
    proof {
        assert(s@.take(n as int) =~= s@);
    }
}

/// Appends the rendering of `j` onto `out`.
#[verifier::loop_isolation(false)]
#[verifier::rlimit(100)]
pub fn write_value(j: &Json, out: &mut Vec<char>)
    ensures
        final(out)@ == old(out)@ + ser_value(j@),
    decreases *j,
{
    match j {
        Json::Null => {
            out.push('n');
            out.push('u');
            out.push('l');
            out.push('l');
            proof {
                assert(out@ =~= old(out)@ + ser_value(j@));
            }
        },
        Json::Bool(b) => {
            if *b {
                out.push('t');
                out.push('r');
                out.push('u');
                out.push('e');
            } else {
                out.push('f');
                out.push('a');
                out.push('l');
                out.push('s');
                out.push('e');
            }
            proof {
                assert(out@ =~= old(out)@ + ser_value(j@));
            }
        },
        Json::Int(n) => {
            crate::numerals::push_dec_i64(*n, out);
        },
        Json::Str(s) => {
            out.push('"');
            write_escaped(s.as_str(), out);
            out.push('"');
            proof {
                assert(out@ =~= old(out)@ + ser_str(s@));
            }
        },
        Json::Arr(v) => {
            let ghost a = crate::protocol::jv_of_seq(v@);
            proof {
                crate::protocol::lemma_jv_of_seq_index(v@);
            }
            out.push('[');
            let ghost base = out@;
            let mut k: usize = 0;
            while k < v.len()
                invariant
                    k <= v.len(),
                    out@ == if k == 0 {
                        base
                    } else {
                        base + ser_items(a.take(k as int))
                    },
                decreases v.len() - k,
            {
                proof {
                    assert(decreases_to!(*j => *v));
                    assert(decreases_to!(*v => v@));
                    assert(decreases_to!(v@ => v@[k as int]));
                }
                if k > 0 {
                    out.push(',');
                }
                write_value(&v[k], out);
                proof {
                    assert(a.take(k as int + 1) =~= a.take(k as int).push(a[k as int]));
                    lemma_ser_items_snoc(a.take(k as int), a[k as int]);
                    assert(out@ =~= base + ser_items(a.take(k as int + 1)));
                }
                k += 1;
            }
            proof {
                assert(a.take(v.len() as int) =~= a);
            }
            out.push(']');
            proof {
                assert(out@ =~= old(out)@ + ser_value(j@));
            }
        },
        Json::Obj(v) => {
            let ghost o = crate::protocol::jv_of_entries(v@);
            proof {
                crate::protocol::lemma_jv_of_entries_index(v@);
            }
            out.push('{');
            let ghost base = out@;
            let mut k: usize = 0;
            while k < v.len()
                invariant
                    k <= v.len(),
                    out@ == if k == 0 {
                        base
                    } else {
                        base + ser_entries(o.take(k as int))
                    },
                decreases v.len() - k,
            {
                proof {
                    assert(decreases_to!(*j => *v));
                    assert(decreases_to!(*v => v@));
                    assert(decreases_to!(v@ => v@[k as int]));
                    assert(decreases_to!(v@[k as int] => v@[k as int].1));
                }
                if k > 0 {
                    out.push(',');
                }
                let entry = &v[k];
                out.push('"');
                write_escaped(entry.0.as_str(), out);
                out.push('"');
                out.push(':');
                write_value(&entry.1, out);
                proof {
                    assert(o.take(k as int + 1) =~= o.take(k as int).push(o[k as int]));
                    lemma_ser_entries_snoc(o.take(k as int), o[k as int]);
                    assert(out@ =~= base + ser_entries(o.take(k as int + 1)));
                }
                k += 1;
            }
            proof {
                assert(o.take(v.len() as int) =~= o);
            }
            out.push('}');
            proof {
                assert(out@ =~= old(out)@ + ser_value(j@));
            }
        },
    }
}

/// Relies on char::from_u32: it yields the character with the given code
/// point exactly when that code point is a valid one, that is neither a
/// surrogate nor beyond the last code point.
pub assume_specification[ char::from_u32 ](i: u32) -> (r: Option<char>)
    ensures
        (r is Some) == (i < 0xD800 || (0xDFFF < i && i <= 0x10FFFF)),
        r matches Some(c) ==> c == i as char,
;

/// Relies on String's `FromIterator<char>`: collecting characters yields a
/// string holding exactly those characters in order.
#[verifier::external_body]
pub fn string_from_chars(v: Vec<char>) -> (r: String)
    ensures
        r@ == v@,
{
    v.into_iter().collect()
}

fn hex_val_e(c: char) -> (r: u8)
    requires
        is_hex(c),
    ensures
        r as nat == hex_val(c),
{
    let u = c as u32;
    if 48 <= u && u <= 57 {
        (u - 48) as u8
    } else if 97 <= u {
        (u - 87) as u8
    } else {
        (u - 55) as u8
    }
}

/// Growing a digit run never shrinks its value.
proof fn lemma_digits_val_grows(s: Seq<char>, i: int, j: int, k: int)
    requires
        i <= j <= k,
    ensures
        digits_val(s, i, k) >= digits_val(s, i, j),
    decreases k - j,
{
    if j < k {
        lemma_digits_val_grows(s, i, j, k - 1);
        assert(digits_val(s, i, k) == digits_val(s, i, k - 1) * 10 + digit_val(s[k - 1]));
    }
}

/// The value of four hexadecimal digits, as `hex_quad` reads them.
fn hex_quad_e(s: &Vec<char>, i: usize) -> (r: u32)
    requires
        i + 4 <= s@.len(),
        is_hex(s@[i as int]),
        is_hex(s@[i as int + 1]),
        is_hex(s@[i as int + 2]),
        is_hex(s@[i as int + 3]),
    ensures
        r as nat == hex_quad(s@, i as int),
        r <= 0xffff,
{
    let n = s.len();
    let h1 = hex_val_e(s[i]) as u32;
    let h2 = hex_val_e(s[i + 1]) as u32;
    let h3 = hex_val_e(s[i + 2]) as u32;
    let h4 = hex_val_e(s[i + 3]) as u32;
    h1 * 4096 + h2 * 256 + h3 * 16 + h4
}

/// Reads the tail of a `\u` escape, as `ps_unicode_escape` does.
fn pv_unicode_escape(s: &Vec<char>, i: usize) -> (r: Option<(char, usize)>)
    ensures
        match r {
            Some(p) => ps_unicode_escape(s@, i as int) == Some((p.0, p.1 as int)),
            None => ps_unicode_escape(s@, i as int) is None,
        },
        r matches Some(p) ==> p.1 > i,
{
    let n = s.len();
    if !(n >= 4 && i <= n - 4 && is_hex_e(s[i]) && is_hex_e(s[i + 1]) && is_hex_e(s[i + 2])
        && is_hex_e(s[i + 3])) {
        return None;
    }
    let code = hex_quad_e(s, i);
    proof {
        assert(code as nat == hex_quad(s@, i as int));
    }
    if code < 0xD800 || code > 0xDFFF {
        match char::from_u32(code) {
            Some(ch) => Some((ch, i + 4)),
            None => {
                proof {
                    assert(false);
                }
                None
            },
        }
    } else if code <= 0xDBFF {
        if !(n >= 10 && i <= n - 10 && s[i + 4] == '\\' && s[i + 5] == 'u' && is_hex_e(
            s[i + 6],
        ) && is_hex_e(s[i + 7]) && is_hex_e(s[i + 8]) && is_hex_e(s[i + 9])) {
            return None;
        }
        let lo = hex_quad_e(s, i + 6);
        proof {
            assert(lo as nat == hex_quad(s@, i as int + 6));
        }
        if 0xDC00 <= lo && lo <= 0xDFFF {
            let combined = 0x10000 + (code - 0xD800) * 0x400 + (lo - 0xDC00);
            match char::from_u32(combined) {
                Some(ch) => Some((ch, i + 10)),
                None => {
                    proof {
                        assert(false);
                    }
                    None
                },
            }
        } else {
            None
        }
    } else {
        None
    }
}

/// Reads a string body as `ps_string_body` does.
fn pv_string_body(s: &Vec<char>, i: usize) -> (r: Option<(Vec<char>, usize)>)
    ensures
        match r {
            Some(p) => ps_string_body(s@, i as int) == Some((p.0@, p.1 as int)),
            None => ps_string_body(s@, i as int) is None,
        },
    decreases s@.len() - i,
{
    if i >= s.len() {
        return None;
    }
    let c = s[i];
    if c == '"' {
        let out: Vec<char> = Vec::new();
        proof {
            assert(out@ =~= Seq::<char>::empty());
        }
        return Some((out, i + 1));
    }
    if c == '\\' {
        if i + 1 >= s.len() {
            return None;
        }
        let e = s[i + 1];
        if e == 'u' {
            match pv_unicode_escape(s, i + 2) {
                Some((ch, next)) => {
                    if next <= i + 1 {
                        proof {
                            assert(false);
                        }
                        return None;
                    }
                    match pv_string_body(s, next) {
                        Some((mut rest, end)) => {
                            let ghost prev = rest@;
                            rest.insert(0, ch);
                            proof {
                                assert(rest@ =~= seq![ch] + prev);
                            }
                            Some((rest, end))
                        },
                        None => None,
                    }
                },
                None => None,
            }
        } else {
            let un = if e == '"' {
                Some('"')
            } else if e == '\\' {
                Some('\\')
            } else if e == '/' {
                Some('/')
            } else if e == 'b' {
                Some('\u{8}')
            } else if e == 'f' {
                Some('\u{c}')
            } else if e == 'n' {
                Some('\n')
            } else if e == 'r' {
                Some('\r')
            } else if e == 't' {
                Some('\t')
            } else {
                None
            };
            proof {
                assert(un == unescape_char(s@[i as int + 1]));
            }
            match un {
                Some(ch) => match pv_string_body(s, i + 2) {
                    Some((mut rest, end)) => {
                        let ghost prev = rest@;
                        rest.insert(0, ch);
                        proof {
                            assert(rest@ =~= seq![ch] + prev);
                        }
                        Some((rest, end))
                    },
                    None => None,
                },
                None => None,
            }
        }
    } else if (c as u32) < 0x20 {
        None
    } else {
        match pv_string_body(s, i + 1) {
            Some((mut rest, end)) => {
                let ghost prev = rest@;
                rest.insert(0, c);
                proof {
                    assert(rest@ =~= seq![c] + prev);
                }
                Some((rest, end))
            },
            None => None,
        }
    }
}

fn is_hex_e(c: char) -> (r: bool)
    ensures
        r == is_hex(c),
{
    let u = c as u32;
    (48 <= u && u <= 57) || (97 <= u && u <= 102) || (65 <= u && u <= 70)
}

/// Reads a number as `ps_number` does.
#[verifier::loop_isolation(false)]
fn pv_number(s: &Vec<char>, i: usize) -> (r: Option<(Json, usize)>)
    ensures
        match r {
            Some(p) => ps_number(s@, i as int) == Some((p.0@, p.1 as int)),
            None => ps_number(s@, i as int) is None,
        },
{
    if i >= s.len() {
        return None;
    }
    let neg = s[i] == '-';
    let start = if neg {
        i + 1
    } else {
        i
    };
    let mut j = start;
    while j < s.len() && 48 <= (s[j] as u32) && (s[j] as u32) <= 57
        invariant
            start <= j <= s@.len(),
            digit_run_end(s@, start as int) == digit_run_end(s@, j as int),
            forall|k: int| start <= k < j ==> is_digit(#[trigger] s@[k]),
        decreases s@.len() - j,
    {
        proof {
            assert(digit_run_end(s@, j as int) == digit_run_end(s@, j as int + 1));
        }
        j += 1;
    }
    proof {
        assert(digit_run_end(s@, j as int) == j as int);
        assert(digit_run_end(s@, start as int) == j as int);
    }
    if j == start {
        return None;
    }
    if j > start + 1 && s[start] == '0' {
        return None;
    }
    let mut acc: u128 = 0;
    let mut over = false;
    let mut k = start;
    while k < j
        invariant
            start <= k <= j <= s@.len(),
            forall|t: int| start <= t < j ==> is_digit(#[trigger] s@[t]),
            !over ==> acc == digits_val(s@, start as int, k as int) && acc
                <= 0x8000000000000000,
            over ==> digits_val(s@, start as int, k as int) > 0x8000000000000000,
        decreases j - k,
    {
        let d = ((s[k] as u32) - 48) as u128;
        proof {
            assert(digits_val(s@, start as int, k as int + 1) == digits_val(
                s@,
                start as int,
                k as int,
            ) * 10 + digit_val(s@[k as int]));
            assert(digit_val(s@[k as int]) == d);
        }
        if over {
            proof {
                lemma_digits_val_grows(s@, start as int, k as int, k as int + 1);
            }
        } else {
            let next = acc * 10 + d;
            if next > 0x8000000000000000 {
                over = true;
            } else {
                acc = next;
            }
        }
        k += 1;
    }
    let m: Ghost<nat> = Ghost(digits_val(s@, start as int, j as int));
    if over {
        return None;
    }
    if neg {
        let val = if acc == 0x8000000000000000 {
            i64::MIN
        } else {
            let a = acc as u64;
            -(a as i64)
        };
        proof {
            assert(val as int == -(m@ as int));
        }
        Some((Json::Int(val), j))
    } else {
        if acc == 0x8000000000000000 {
            return None;
        }
        let val = acc as u64 as i64;
        proof {
            assert(val as int == m@ as int);
        }
        Some((Json::Int(val), j))
    }
}

/// Advances past whitespace, as `ws_end` does.
fn skip_ws(s: &Vec<char>, i: usize) -> (r: usize)
    ensures
        r as int == ws_end(s@, i as int),
        i <= r,
{
    let mut j = i;
    while j < s.len() && (s[j] == ' ' || s[j] == '\t' || s[j] == '\n' || s[j] == '\r')
        invariant
            i <= j,
            j <= s@.len() || j == i,
            ws_end(s@, i as int) == ws_end(s@, j as int),
        decreases s@.len() - j,
    {
        proof {
            assert(ws_end(s@, j as int) == ws_end(s@, j as int + 1));
        }
        j += 1;
    }
    proof {
        assert(ws_end(s@, j as int) == j as int);
    }
    j
}

/// Reads one value as `ps_value` does.
fn pv_value(s: &Vec<char>, start: usize) -> (r: Option<(Json, usize)>)
    ensures
        match r {
            Some(p) => ps_value(s@, start as int) == Some((p.0@, p.1 as int)),
            None => ps_value(s@, start as int) is None,
        },
    decreases s@.len() - start, 0int,
{
    let i = skip_ws(s, start);
    if i >= s.len() {
        return None;
    }
    let c = s[i];
    if c == 'n' {
        if s.len() - i >= 4 && s[i + 1] == 'u' && s[i + 2] == 'l' && s[i + 3] == 'l' {
            Some((Json::Null, i + 4))
        } else {
            None
        }
    } else if c == 't' {
        if s.len() - i >= 4 && s[i + 1] == 'r' && s[i + 2] == 'u' && s[i + 3] == 'e' {
            Some((Json::Bool(true), i + 4))
        } else {
            None
        }
    } else if c == 'f' {
        if s.len() - i >= 5 && s[i + 1] == 'a' && s[i + 2] == 'l' && s[i + 3] == 's' && s[i + 4]
            == 'e' {
            Some((Json::Bool(false), i + 5))
        } else {
            None
        }
    } else if c == '"' {
        match pv_string_body(s, i + 1) {
            Some((content, end)) => {
                let st = string_from_chars(content);
                Some((Json::Str(st), end))
            },
            None => None,
        }
    } else if c == '-' || (48 <= (c as u32) && (c as u32) <= 57) {
        pv_number(s, i)
    } else if c == '[' {
        if s.len() - i >= 2 && s[i + 1] == ']' {
            let items: Vec<Json> = Vec::new();
            proof {
                assert(crate::protocol::jv_of_seq(items@) =~= Seq::<Jv>::empty());
            }
            Some((Json::Arr(items), i + 2))
        } else {
            match pv_items(s, i + 1) {
                Some((items, end)) => Some((Json::Arr(items), end)),
                None => None,
            }
        }
    } else if c == '{' {
        if s.len() - i >= 2 && s[i + 1] == '}' {
            let entries: Vec<(String, Json)> = Vec::new();
            proof {
                assert(crate::protocol::jv_of_entries(entries@) =~= Seq::<
                    (Seq<char>, Jv),
                >::empty());
            }
            Some((Json::Obj(entries), i + 2))
        } else {
            match pv_entries(s, i + 1) {
                Some((entries, end)) => Some((Json::Obj(entries), end)),
                None => None,
            }
        }
    } else {
        None
    }
}

/// Reads array items as `ps_items` does.
fn pv_items(s: &Vec<char>, i: usize) -> (r: Option<(Vec<Json>, usize)>)
    ensures
        match r {
            Some(p) => ps_items(s@, i as int) == Some((crate::protocol::jv_of_seq(p.0@), p.1
                as int)),
            None => ps_items(s@, i as int) is None,
        },
    decreases s@.len() - i, 1int,
{
    match pv_value(s, i) {
        Some((v, j)) => {
            if j <= i || j > s.len() {
                return None;
            }
            let m = skip_ws(s, j);
            if m > s.len() {
                return None;
            }
            if m < s.len() && s[m] == ',' {
                match pv_items(s, m + 1) {
                    Some((mut rest, end)) => {
                        let ghost prev = rest@;
                        rest.insert(0, v);
                        proof {
                            assert(rest@ =~= seq![v] + prev);
                            assert(rest@[0] == v);
                            assert(rest@.drop_first() =~= prev);
                            assert(crate::protocol::jv_of_seq(rest@) == seq![v@]
                                + crate::protocol::jv_of_seq(prev));
                        }
                        Some((rest, end))
                    },
                    None => None,
                }
            } else if m < s.len() && s[m] == ']' {
                let mut one: Vec<Json> = Vec::new();
                one.push(v);
                proof {
                    assert(one@[0] == v);
                    assert(one@.drop_first() =~= Seq::<Json>::empty());
                    assert(crate::protocol::jv_of_seq(Seq::<Json>::empty())
                        == Seq::<Jv>::empty());
                    assert(crate::protocol::jv_of_seq(one@) =~= seq![v@]);
                }
                Some((one, m + 1))
            } else {
                None
            }
        },
        None => None,
    }
}

/// Reads object entries as `ps_entries` does.
fn pv_entries(s: &Vec<char>, start: usize) -> (r: Option<(Vec<(String, Json)>, usize)>)
    ensures
        match r {
            Some(p) => ps_entries(s@, start as int) == Some((crate::protocol::jv_of_entries(
                p.0@,
            ), p.1 as int)),
            None => ps_entries(s@, start as int) is None,
        },
    decreases s@.len() - start, 1int,
{
    let i = skip_ws(s, start);
    if i >= s.len() || s[i] != '"' {
        return None;
    }
    match pv_string_body(s, i + 1) {
        Some((kchars, j)) => {
            if j <= i + 1 || j > s.len() {
                return None;
            }
            let b = skip_ws(s, j);
            if b >= s.len() || s[b] != ':' {
                return None;
            }
            match pv_value(s, b + 1) {
                    Some((v, m)) => {
                        if m <= b + 1 || m > s.len() {
                            return None;
                        }
                        let key = string_from_chars(kchars);
                        let c = skip_ws(s, m);
                        if c > s.len() {
                            return None;
                        }
                        if c < s.len() && s[c] == ',' {
                            match pv_entries(s, c + 1) {
                                Some((mut rest, end)) => {
                                    let ghost prev = rest@;
                                    rest.insert(0, (key, v));
                                    proof {
                                        assert(rest@ =~= seq![(key, v)] + prev);
                                        assert(rest@[0] == (key, v));
                                        assert(rest@.drop_first() =~= prev);
                                        assert(crate::protocol::jv_of_entries(rest@)
                                            == seq![(key@, v@)]
                                            + crate::protocol::jv_of_entries(prev));
                                    }
                                    Some((rest, end))
                                },
                                None => None,
                            }
                        } else if c < s.len() && s[c] == '}' {
                            let mut one: Vec<(String, Json)> = Vec::new();
                            one.push((key, v));
                            proof {
                                assert(one@[0] == (key, v));
                                assert(one@.drop_first() =~= Seq::<(String, Json)>::empty());
                                assert(crate::protocol::jv_of_entries(
                                    Seq::<(String, Json)>::empty(),
                                ) == Seq::<(Seq<char>, Jv)>::empty());
                                assert(crate::protocol::jv_of_entries(one@) =~= seq![
                                    (key@, v@),
                                ]);
                            }
                            Some((one, c + 1))
                        } else {
                            None
                        }
                    },
                    None => None,
                }
        },
        None => None,
    }
}

proof fn lemma_obj_lookup_found(o: Seq<(Seq<char>, Jv)>, key: Seq<char>, k: int)
    requires
        0 <= k < o.len(),
        o[k].0 == key,
        forall|t: int| 0 <= t < k ==> (#[trigger] o[t]).0 != key,
    ensures
        obj_lookup(o, key) == Some(o[k].1),
    decreases k,
{
    if k > 0 {
        let rest = o.drop_first();
        assert forall|t: int| 0 <= t < k - 1 implies (#[trigger] rest[t]).0 != key by {
            assert(rest[t] == o[t + 1]);
        }
        lemma_obj_lookup_found(rest, key, k - 1);
    }
}

proof fn lemma_obj_lookup_none(o: Seq<(Seq<char>, Jv)>, key: Seq<char>)
    requires
        forall|t: int| 0 <= t < o.len() ==> (#[trigger] o[t]).0 != key,
    ensures
        obj_lookup(o, key) is None,
    decreases o.len(),
{
    if o.len() > 0 {
        let rest = o.drop_first();
        assert forall|t: int| 0 <= t < rest.len() implies (#[trigger] rest[t]).0 != key by {
            assert(rest[t] == o[t + 1]);
        }
        lemma_obj_lookup_none(rest, key);
    }
}

/// The first entry under `key`, as `obj_lookup` reads it.
pub(crate) fn obj_get<'a>(entries: &'a Vec<(String, Json)>, key: &String) -> (r: Option<&'a Json>)
    ensures
        match r {
            Some(j) => obj_lookup(crate::protocol::jv_of_entries(entries@), key@) == Some(j@),
            None => obj_lookup(crate::protocol::jv_of_entries(entries@), key@) is None,
        },
{
    let ghost o = crate::protocol::jv_of_entries(entries@);
    proof {
        crate::protocol::lemma_jv_of_entries_index(entries@);
    }
    let mut k: usize = 0;
    while k < entries.len()
        invariant
            k <= entries.len(),
            o == crate::protocol::jv_of_entries(entries@),
            forall|t: int| 0 <= t < k ==> (#[trigger] o[t]).0 != key@,
        decreases entries.len() - k,
    {
        let e = &entries[k];
        if e.0 == *key {
            proof {
                crate::protocol::lemma_jv_of_entries_index(entries@);
                lemma_obj_lookup_found(o, key@, k as int);
            }
            return Some(&entries[k].1);
        }
        proof {
            crate::protocol::lemma_jv_of_entries_index(entries@);
        }
        k += 1;
    }
    proof {
        lemma_obj_lookup_none(o, key@);
    }
    None
}

/// Reads a message from a JSON value, as the union is declared: a request
/// shape first, a response shape otherwise.
pub fn message_of_json(j: &Json) -> (r: Option<Message>)
    ensures
        match r {
            Some(m) => msg_of_jv(j@) == Some(m@),
            None => msg_of_jv(j@) is None,
        },
{
    proof {
        reveal_strlit("id");
        reveal_strlit("method");
        reveal_strlit("params");
        reveal_strlit("result");
        reveal_strlit("error");
        reveal_strlit("code");
        reveal_strlit("message");
        assert("id"@ =~= key_id());
        assert("method"@ =~= key_method());
        assert("params"@ =~= key_params());
        assert("result"@ =~= key_result());
        assert("error"@ =~= key_error());
        assert("code"@ =~= key_code());
        assert("message"@ =~= key_message());
    }
    let entries = match j {
        Json::Obj(entries) => entries,
        _ => {
            return None;
        },
    };
    proof {
        crate::protocol::lemma_jv_of_entries_index(entries@);
    }
    let kid = String::from_str("id");
    if entries.len() == 3 {
        let idv = obj_get(entries, &kid);
        let methodv = obj_get(entries, &String::from_str("method"));
        let paramsv = obj_get(entries, &String::from_str("params"));
        match (idv, methodv, paramsv) {
            (Some(Json::Str(id)), Some(Json::Str(method)), Some(params)) => Some(
                Message::Request(
                    crate::protocol::Request {
                        id: crate::protocol::RequestId(id.clone()),
                        method: method.clone(),
                        params: params.clone(),
                    },
                ),
            ),
            _ => None,
        }
    } else if entries.len() == 2 {
        let idv = obj_get(entries, &kid);
        let id = match idv {
            Some(Json::Str(id)) => id,
            _ => {
                return None;
            },
        };
        let resultv = obj_get(entries, &String::from_str("result"));
        match resultv {
            Some(result) => Some(
                Message::Response(
                    crate::protocol::Response::Success {
                        id: crate::protocol::RequestId(id.clone()),
                        result: result.clone(),
                    },
                ),
            ),
            None => {
                let errorv = obj_get(entries, &String::from_str("error"));
                let eo = match errorv {
                    Some(Json::Obj(eo)) => eo,
                    _ => {
                        return None;
                    },
                };
                proof {
                    crate::protocol::lemma_jv_of_entries_index(eo@);
                }
                let codev = obj_get(eo, &String::from_str("code"));
                let messagev = obj_get(eo, &String::from_str("message"));
                match (codev, messagev) {
                    (Some(Json::Str(code)), Some(Json::Str(message))) => Some(
                        Message::Response(
                            crate::protocol::Response::Failure {
                                id: crate::protocol::RequestId(id.clone()),
                                error: crate::protocol::Error {
                                    code: code.clone(),
                                    message: message.clone(),
                                },
                            },
                        ),
                    ),
                    _ => None,
                }
            },
        }
    } else {
        None
    }
}

/// The JSON object shape of a message.
pub fn json_of_message(m: &Message) -> (r: Json)
    ensures
        r@ == jv_of_msg(m@),
{
    proof {
        reveal_strlit("id");
        reveal_strlit("method");
        reveal_strlit("params");
        reveal_strlit("result");
        reveal_strlit("error");
        reveal_strlit("code");
        reveal_strlit("message");
        assert("id"@ =~= key_id());
        assert("method"@ =~= key_method());
        assert("params"@ =~= key_params());
        assert("result"@ =~= key_result());
        assert("error"@ =~= key_error());
        assert("code"@ =~= key_code());
        assert("message"@ =~= key_message());
    }
    match m {
        Message::Request(req) => {
            let mut entries: Vec<(String, Json)> = Vec::new();
            entries.push((String::from_str("id"), Json::Str(req.id.0.clone())));
            entries.push((String::from_str("method"), Json::Str(req.method.clone())));
            entries.push((String::from_str("params"), req.params.clone()));
            proof {
                crate::protocol::lemma_jv_of_entries_index(entries@);
                assert(crate::protocol::jv_of_entries(entries@) =~= jv_of_req(
                    req@,
                )->Obj_0);
            }
            Json::Obj(entries)
        },
        Message::Response(resp) => match resp {
            crate::protocol::Response::Success { id, result } => {
                let mut entries: Vec<(String, Json)> = Vec::new();
                entries.push((String::from_str("id"), Json::Str(id.0.clone())));
                entries.push((String::from_str("result"), result.clone()));
                proof {
                    crate::protocol::lemma_jv_of_entries_index(entries@);
                    assert(crate::protocol::jv_of_entries(entries@) =~= jv_of_resp(
                        resp@,
                    )->Obj_0);
                }
                Json::Obj(entries)
            },
            crate::protocol::Response::Failure { id, error } => {
                let mut eo: Vec<(String, Json)> = Vec::new();
                eo.push((String::from_str("code"), Json::Str(error.code.clone())));
                eo.push((String::from_str("message"), Json::Str(error.message.clone())));
                let ghost eov = crate::protocol::jv_of_entries(eo@);
                proof {
                    crate::protocol::lemma_jv_of_entries_index(eo@);
                    assert(eov =~= seq![
                        (key_code(), Jv::Str(error.code@)),
                        (key_message(), Jv::Str(error.message@)),
                    ]);
                }
                let mut entries: Vec<(String, Json)> = Vec::new();
                entries.push((String::from_str("id"), Json::Str(id.0.clone())));
                entries.push((String::from_str("error"), Json::Obj(eo)));
                proof {
                    crate::protocol::lemma_jv_of_entries_index(entries@);
                    assert(crate::protocol::jv_of_entries(entries@) =~= jv_of_resp(
                        resp@,
                    )->Obj_0);
                }
                Json::Obj(entries)
            },
        },
    }
}

/// Renders a message as one line of wire text, newline not included.
pub fn encode_message(m: &Message) -> (out: Vec<char>)
    ensures
        out@ == ser_msg(m@),
{
    let j = json_of_message(m);
    let mut out: Vec<char> = Vec::new();
    write_value(&j, &mut out);
    proof {
        assert(out@ =~= ser_msg(m@));
    }
    out
}

/// Renders a message as one line of wire text, as a string.
pub fn encode_message_text(m: &Message) -> (out: String)
    ensures
        out@ == ser_msg(m@),
{
    string_from_chars(encode_message(m))
}

/// Reads one line of text as one whole JSON value.
pub fn parse_json_text(line: &str) -> (r: Option<Json>)
    ensures
        match r {
            Some(v) => ps_root(line@) == Some(v@),
            None => ps_root(line@) is None,
        },
{
    let n = line.unicode_len();
    let mut cs: Vec<char> = Vec::new();
    let mut k: usize = 0;
    while k < n
        invariant
            k <= n,
            n == line@.len(),
            cs@ == line@.take(k as int),
        decreases n - k,
    {
        let c = line.get_char(k);
        cs.push(c);
        proof {
            assert(line@.take(k as int + 1) =~= line@.take(k as int).push(c));
        }
        k += 1;
    }
    proof {
        assert(cs@ =~= line@);
    }
    match pv_value(&cs, 0) {
        Some((v, end)) => {
            if skip_ws(&cs, end) == cs.len() {
                Some(v)
            } else {
                None
            }
        },
        None => None,
    }
}

/// Reads one line of wire text as a message. Yields nothing when the line
/// is not one whole JSON text of a message's shape: that is fatal for the
/// connection the line arrived on.
pub fn parse_message_text(line: &str) -> (r: Option<Message>)
    ensures
        match r {
            Some(m) => parse_msg(line@) == Some(m@),
            None => parse_msg(line@) is None,
        },
{
    let n = line.unicode_len();
    let mut cs: Vec<char> = Vec::new();
    let mut k: usize = 0;
    while k < n
        invariant
            k <= n,
            n == line@.len(),
            cs@ == line@.take(k as int),
        decreases n - k,
    {
        let c = line.get_char(k);
        cs.push(c);
        proof {
            assert(line@.take(k as int + 1) =~= line@.take(k as int).push(c));
        }
        k += 1;
    }
    proof {
        assert(cs@ =~= line@);
    }
    match pv_value(&cs, 0) {
        Some((v, end)) => {
            if skip_ws(&cs, end) == cs.len() {
                message_of_json(&v)
            } else {
                None
            }
        },
        None => None,
    }
}

} // verus!
