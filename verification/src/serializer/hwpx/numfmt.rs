//! Decimal and hexadecimal text of integers.
use vstd::prelude::*;

use super::utils::{escape_text, lemma_escape_text_plain_id, string_push};

verus! {

/// The decimal digit `d` (0..=9) as a character.
pub open spec fn digit_char(d: int) -> char {
    if d == 0 {
        '0'
    } else if d == 1 {
        '1'
    } else if d == 2 {
        '2'
    } else if d == 3 {
        '3'
    } else if d == 4 {
        '4'
    } else if d == 5 {
        '5'
    } else if d == 6 {
        '6'
    } else if d == 7 {
        '7'
    } else if d == 8 {
        '8'
    } else {
        '9'
    }
}

/// Decimal text of a natural number, without leading zeros.
pub open spec fn nat_text(n: nat) -> Seq<char>
    decreases n,
{
    if n < 10 {
        seq![digit_char(n as int)]
    } else {
        nat_text(n / 10).push(digit_char((n % 10) as int))
    }
}

/// Decimal text of an integer, with a leading `-` when negative.
pub open spec fn int_text(i: int) -> Seq<char> {
    if i < 0 {
        seq!['-'] + nat_text((-i) as nat)
    } else {
        nat_text(i as nat)
    }
}

/// Upper-case hexadecimal digit of `d` (0..=15).
pub open spec fn hex_digit(d: int) -> char {
    if d < 10 {
        digit_char(d)
    } else if d == 10 {
        'A'
    } else if d == 11 {
        'B'
    } else if d == 12 {
        'C'
    } else if d == 13 {
        'D'
    } else if d == 14 {
        'E'
    } else {
        'F'
    }
}

/// Two upper-case hexadecimal digits of a byte.
pub open spec fn hex2(b: u8) -> Seq<char> {
    seq![hex_digit(b as int / 16), hex_digit(b as int % 16)]
}

fn digit(d: u64) -> (c: char)
    requires
        d < 10,
    ensures
        c == digit_char(d as int),
{
    if d == 0 {
        '0'
    } else if d == 1 {
        '1'
    } else if d == 2 {
        '2'
    } else if d == 3 {
        '3'
    } else if d == 4 {
        '4'
    } else if d == 5 {
        '5'
    } else if d == 6 {
        '6'
    } else if d == 7 {
        '7'
    } else if d == 8 {
        '8'
    } else {
        '9'
    }
}

fn hex_digit_exec(d: u8) -> (c: char)
    requires
        d < 16,
    ensures
        c == hex_digit(d as int),
{
    if d < 10 {
        digit(d as u64)
    } else if d == 10 {
        'A'
    } else if d == 11 {
        'B'
    } else if d == 12 {
        'C'
    } else if d == 13 {
        'D'
    } else if d == 14 {
        'E'
    } else {
        'F'
    }
}

/// Appends the decimal text of `n`.
pub fn push_nat(out: &mut String, n: u64)
    ensures
        final(out)@ == old(out)@ + nat_text(n as nat),
    decreases n,
{
    if n >= 10 {
        push_nat(out, n / 10);
    }
    string_push(out, digit(n % 10));
    proof {
        if n >= 10 {
            assert(old(out)@ + nat_text(n as nat) == old(out)@ + nat_text((n / 10) as nat) + seq![
                digit_char((n % 10) as int),
            ]);
        }
    }
}

/// Appends the decimal text of `i`.
pub fn push_int(out: &mut String, i: i64)
    ensures
        final(out)@ == old(out)@ + int_text(i as int),
{
    if i < 0 {
        string_push(out, '-');
        let m: u64 = if i == i64::MIN {
            9223372036854775808u64
        } else {
            (-i) as u64
        };
        push_nat(out, m);
        assert(old(out)@.push('-') + nat_text(m as nat) == old(out)@ + int_text(i as int));
    } else {
        push_nat(out, i as u64);
    }
}

/// Decimal text of `n` as a new string.
pub fn nat_string(n: u64) -> (s: String)
    ensures
        s@ == nat_text(n as nat),
{
    let mut s = String::new();
    push_nat(&mut s, n);
    assert(Seq::<char>::empty() + nat_text(n as nat) == nat_text(n as nat));
    s
}

/// Decimal text of `i` as a new string.
pub fn int_string(i: i64) -> (s: String)
    ensures
        s@ == int_text(i as int),
{
    let mut s = String::new();
    push_int(&mut s, i);
    assert(Seq::<char>::empty() + int_text(i as int) == int_text(i as int));
    s
}

/// Appends two upper-case hexadecimal digits of `b`.
pub fn push_hex2(out: &mut String, b: u8)
    ensures
        final(out)@ == old(out)@ + hex2(b),
{
    string_push(out, hex_digit_exec(b / 16));
    string_push(out, hex_digit_exec(b % 16));
    assert(old(out)@.push(hex_digit(b as int / 16)).push(hex_digit(b as int % 16)) == old(out)@ + hex2(b));
}

/// A decimal digit is one of `0` to `9`.
pub open spec fn is_digit_char(c: char) -> bool {
    0x30 <= (c as u32) <= 0x39
}

/// Decimal text is made of the digits `0` to `9`.
pub proof fn lemma_nat_text_digits(n: nat)
    ensures
        forall|i: int| 0 <= i < nat_text(n).len() ==> is_digit_char(#[trigger] nat_text(n)[i]),
    decreases n,
{
    if n >= 10 {
        lemma_nat_text_digits(n / 10);
        let p = nat_text(n / 10);
        let d = digit_char((n % 10) as int);
        assert(is_digit_char(d));
        assert forall|i: int| 0 <= i < nat_text(n).len() implies is_digit_char(
            #[trigger] nat_text(n)[i],
        ) by {
            if i < p.len() {
                assert(nat_text(n)[i] == p[i]);
            } else {
                assert(nat_text(n)[i] == d);
            }
        }
    } else {
        assert(is_digit_char(digit_char(n as int)));
    }
}

/// Decimal text is its own XML escape.
pub proof fn lemma_escape_nat_text(n: nat)
    ensures
        escape_text(nat_text(n)) == nat_text(n),
{
    lemma_nat_text_digits(n);
    let t = nat_text(n);
    assert forall|i: int| 0 <= i < t.len() implies #[trigger] t[i] != '&' && t[i] != '<' && t[i]
        != '>' && t[i] != '"' && t[i] != '\'' by {
        assert(is_digit_char(t[i]));
    }
    lemma_escape_text_plain_id(t);
}

/// Decimal text of an integer is its own XML escape.
pub proof fn lemma_escape_int_text(i: int)
    ensures
        escape_text(int_text(i)) == int_text(i),
{
    let n: nat = if i < 0 {
        (-i) as nat
    } else {
        i as nat
    };
    lemma_nat_text_digits(n);
    let t = int_text(i);
    assert forall|j: int| 0 <= j < t.len() implies #[trigger] t[j] != '&' && t[j] != '<' && t[j]
        != '>' && t[j] != '"' && t[j] != '\'' by {
        if i < 0 {
            if j > 0 {
                assert(t[j] == nat_text(n)[j - 1]);
                assert(is_digit_char(nat_text(n)[j - 1]));
            }
        } else {
            assert(is_digit_char(t[j]));
        }
    }
    lemma_escape_text_plain_id(t);
}

} // verus!
