//! Decimal numerals: rendering integers as digit strings and reading them
//! back. Request identifiers and JSON numbers both use this form.

use vstd::prelude::*;

verus! {

pub open spec fn is_digit(c: char) -> bool {
    0x30 <= c as u32 && c as u32 <= 0x39
}

pub open spec fn digit_val(c: char) -> nat {
    (c as u32 - 0x30) as nat
}

pub open spec fn digit_char(n: nat) -> char {
    ((48 + (n % 10)) as u8) as char
}

/// The canonical decimal rendering of `n`: no sign, no leading zero.
pub open spec fn dec_of(n: nat) -> Seq<char>
    decreases n,
{
    if n < 10 {
        seq![digit_char(n)]
    } else {
        dec_of(n / 10) + seq![digit_char(n % 10)]
    }
}

/// The canonical decimal rendering of `i`, with a leading `-` when negative.
pub open spec fn dec_int_of(i: int) -> Seq<char> {
    if i < 0 {
        seq!['-'] + dec_of((-i) as nat)
    } else {
        dec_of(i as nat)
    }
}

/// First index at or after `i` holding no digit.
pub open spec fn digit_run_end(s: Seq<char>, i: int) -> int
    decreases s.len() - i,
{
    if i < 0 || i >= s.len() {
        i
    } else if is_digit(s[i]) {
        digit_run_end(s, i + 1)
    } else {
        i
    }
}

/// The value of the digits of `s` between `i` (inclusive) and `j` (exclusive).
pub open spec fn digits_val(s: Seq<char>, i: int, j: int) -> nat
    decreases j - i,
{
    if j <= i {
        0
    } else {
        digits_val(s, i, j - 1) * 10 + digit_val(s[j - 1])
    }
}

proof fn lemma_digit_char(n: nat)
    ensures
        is_digit(digit_char(n)),
        digit_val(digit_char(n)) == n % 10,
{
}

/// Every rendered numeral is a non-empty run of digits.
pub proof fn lemma_dec_of_digits(n: nat)
    ensures
        dec_of(n).len() >= 1,
        forall|k: int| 0 <= k < dec_of(n).len() ==> is_digit(#[trigger] dec_of(n)[k]),
    decreases n,
{
    lemma_digit_char(n);
    lemma_digit_char(n % 10);
    if n >= 10 {
        lemma_dec_of_digits(n / 10);
    }
}

/// A digit run ends exactly at the first non-digit.
pub proof fn lemma_digit_run(s: Seq<char>, j: int, end: int)
    requires
        0 <= j <= end <= s.len(),
        forall|k: int| j <= k < end ==> is_digit(#[trigger] s[k]),
        end == s.len() || !is_digit(s[end]),
    ensures
        digit_run_end(s, j) == end,
    decreases end - j,
{
    if j < end {
        lemma_digit_run(s, j + 1, end);
    }
}

/// Reading back a rendered numeral embedded in a larger text yields its value.
pub proof fn lemma_dec_round(s: Seq<char>, i: int, n: nat)
    requires
        0 <= i,
        i + dec_of(n).len() <= s.len(),
        forall|k: int| 0 <= k < dec_of(n).len() ==> s[i + k] == #[trigger] dec_of(n)[k],
    ensures
        digits_val(s, i, i + dec_of(n).len()) == n,
    decreases n,
{
    lemma_digit_char(n);
    lemma_digit_char(n % 10);
    if n < 10 {
        assert(s[i + 0] == dec_of(n)[0]);
        assert(digits_val(s, i, i) == 0);
        assert(digits_val(s, i, i + 1) == digit_val(s[i]));
    } else {
        let a = dec_of(n / 10);
        let full = dec_of(n);
        assert(full == a + seq![digit_char(n % 10)]);
        assert(forall|k: int| 0 <= k < a.len() ==> s[i + k] == #[trigger] a[k]) by {
            assert(forall|k: int| 0 <= k < a.len() ==> #[trigger] a[k] == full[k]);
        }
        lemma_dec_round(s, i, n / 10);
        assert(s[i + (full.len() - 1)] == dec_of(n)[full.len() - 1]);
        assert(full[full.len() - 1] == digit_char(n % 10));
        assert(s[i + full.len() - 1] == digit_char(n % 10));
        assert(digits_val(s, i, i + full.len()) == digits_val(s, i, i + full.len() - 1) * 10
            + digit_val(s[i + full.len() - 1]));
        assert(n / 10 * 10 + n % 10 == n) by (nonlinear_arith);
    }
}

/// A rendered numeral longer than one digit never starts with zero.
pub proof fn lemma_dec_of_no_leading_zero(n: nat)
    ensures
        dec_of(n).len() > 1 ==> dec_of(n)[0] != '0',
    decreases n,
{
    if n >= 10 {
        lemma_dec_of_no_leading_zero(n / 10);
        lemma_dec_of_digits(n / 10);
        assert(dec_of(n) == dec_of(n / 10) + seq![digit_char(n % 10)]);
        assert(dec_of(n)[0] == dec_of(n / 10)[0]);
        if n / 10 < 10 {
            lemma_digit_char(n / 10);
            assert(dec_of(n / 10)[0] == digit_char(n / 10));
            assert(n / 10 >= 1);
            assert((n / 10) % 10 == n / 10);
            assert(digit_char(n / 10) as u32 == 48 + (n / 10) % 10);
            assert(dec_of(n)[0] as u32 != 48);
        } else {
            lemma_dec_of_digits(n / 10 / 10);
            assert(dec_of(n / 10) == dec_of(n / 10 / 10) + seq![digit_char((n / 10) % 10)]);
            assert(dec_of(n / 10).len() > 1);
        }
    }
}

/// Two distinct naturals never render to the same numeral.
pub proof fn lemma_dec_of_injective(a: nat, b: nat)
    requires
        dec_of(a) == dec_of(b),
    ensures
        a == b,
{
    let s = dec_of(a);
    lemma_dec_round(s, 0, a);
    lemma_dec_round(dec_of(b), 0, b);
}

/// Renders `n` in decimal onto the end of `out`.
pub fn push_dec_u64(n: u64, out: &mut Vec<char>)
    ensures
        final(out)@ == old(out)@ + dec_of(n as nat),
    decreases n,
{
    if n < 10 {
        out.push(((48 + (n % 10)) as u8) as char);
    } else {
        push_dec_u64(n / 10, out);
        out.push(((48 + (n % 10)) as u8) as char);
    }
}

/// Renders `n` in decimal onto the end of `out`, sign included.
pub fn push_dec_i64(n: i64, out: &mut Vec<char>)
    ensures
        final(out)@ == old(out)@ + dec_int_of(n as int),
{
    if n >= 0 {
        push_dec_u64(n as u64, out);
    } else {
        out.push('-');
        if n == i64::MIN {
            push_dec_u64(9223372036854775808u64, out);
        } else {
            push_dec_u64((-n) as u64, out);
        }
    }
}

} // verus!
