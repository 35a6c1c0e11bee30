//! Numbers as text: decimal and hexadecimal, written and read.

use vstd::prelude::*;

use crate::text::chars_of;

verus! {

/// The decimal digit for `d`.
pub open spec fn digit(d: int) -> char {
    (48 + d) as char
}

/// Whether `c` is a decimal digit.
pub open spec fn is_digit(c: char) -> bool {
    48 <= c as u32 <= 57
}

/// What the decimal digit `c` counts.
pub open spec fn digit_value(c: char) -> int {
    c as u32 - 48
}

/// `n` in decimal, without leading zeros.
pub open spec fn decimal(n: nat) -> Seq<char>
    decreases n,
{
    if n < 10 {
        seq![digit(n as int)]
    } else {
        decimal(n / 10).push(digit((n % 10) as int))
    }
}

/// Whether every character of `s` is a decimal digit.
pub open spec fn all_digits(s: Seq<char>) -> bool {
    forall|i: int| 0 <= i < s.len() ==> is_digit(#[trigger] s[i])
}

/// The number whose decimal digits, leading zeros allowed, are `s`.
pub open spec fn digits_value(s: Seq<char>) -> nat
    decreases s.len(),
{
    if s.len() == 0 {
        0
    } else {
        digits_value(s.drop_last()) * 10 + digit_value(s.last()) as nat
    }
}

/// What a 32-bit unsigned number reads from `s`: an optional plus sign, then one or more
/// digits whose value fits.
pub open spec fn read_u32(s: Seq<char>) -> Option<u32> {
    let t = if s.len() > 0 && s[0] == '+' {
        s.skip(1)
    } else {
        s
    };
    if t.len() > 0 && all_digits(t) && digits_value(t) <= u32::MAX {
        Some(digits_value(t) as u32)
    } else {
        None
    }
}

/// The digit for `d`.
pub fn digit_char(d: u8) -> (c: char)
    requires
        d < 10,
    ensures
        c == digit(d as int),
{
    (48u8 + d) as char
}

/// `n` in decimal.
pub fn decimal_text(n: u64) -> (r: String)
    ensures
        r@ == decimal(n as nat),
    decreases n,
{
    if n < 10 {
        let mut s = String::new();
        s.push(digit_char(n as u8));
        assert(s@ == seq![digit(n as int)]);
        s
    } else {
        let mut s = decimal_text(n / 10);
        s.push(digit_char((n % 10) as u8));
        s
    }
}

/// Decimal text is made of digits, and its value is the number it was made from.
pub proof fn lemma_decimal(n: nat)
    ensures
        decimal(n).len() >= 1,
        all_digits(decimal(n)),
        digits_value(decimal(n)) == n,
    decreases n,
{
    if n < 10 {
        let s = seq![digit(n as int)];
        assert(s.drop_last() == Seq::<char>::empty());
        assert(digits_value(s.drop_last()) == 0);
    } else {
        lemma_decimal(n / 10);
        let s = decimal(n / 10).push(digit((n % 10) as int));
        assert(s.drop_last() == decimal(n / 10));
        assert forall|i: int| 0 <= i < s.len() implies is_digit(#[trigger] s[i]) by {
            if i < s.len() - 1 {
                assert(s[i] == decimal(n / 10)[i]);
            }
        }
    }
}

proof fn lemma_digit_back(c: char)
    requires
        is_digit(c),
    ensures
        digit(digit_value(c)) == c,
{
}

/// Digits without a leading zero are the decimal text of their value.
pub proof fn lemma_decimal_of_digits(s: Seq<char>)
    requires
        s.len() > 0,
        all_digits(s),
        s.len() > 1 ==> s[0] != '0',
    ensures
        decimal(digits_value(s)) == s,
        s.len() > 1 ==> digits_value(s) >= 10,
        s[0] != '0' ==> digits_value(s) >= 1,
    decreases s.len(),
{
    let init = s.drop_last();
    let d = digit_value(s.last());
    assert(is_digit(s[s.len() - 1]));
    lemma_digit_back(s.last());
    if s.len() == 1 {
        assert(digits_value(init) == 0);
        assert(s =~= seq![digit(d)]);
    } else {
        assert forall|i: int| 0 <= i < init.len() implies is_digit(#[trigger] init[i]) by {
            assert(init[i] == s[i]);
        }
        lemma_decimal_of_digits(init);
        let n = digits_value(s);
        assert(n / 10 == digits_value(init) && n % 10 == d);
        assert(s =~= init.push(digit(d)));
    }
}

/// Reads a 32-bit unsigned number.
pub fn parse_u32(s: &str) -> (r: Option<u32>)
    ensures
        r == read_u32(s@),
{
    let v: Vec<char> = chars_of(s);
    let mut start: usize = 0;
    if v.len() > 0 && v[0] == '+' {
        start = 1;
    }
    let ghost t = v@.skip(start as int);
    assert(start == 0 ==> t == v@);
    if start == v.len() {
        return None;
    }
    let mut acc: u64 = 0;
    let mut i: usize = start;
    while i < v.len()
        invariant
            start <= i <= v@.len(),
            v@ == s@,
            t == v@.skip(start as int),
            t == (if s@.len() > 0 && s@[0] == '+' {
                s@.skip(1)
            } else {
                s@
            }),
            all_digits(t.take(i - start)),
            acc == (if digits_value(t.take(i - start)) <= u32::MAX {
                digits_value(t.take(i - start)) as int
            } else {
                u32::MAX + 1
            }),
        decreases v@.len() - i,
    {
        let c: char = v[i];
        let n: u32 = c as u32;
        assert(t[i - start] == c);
        if n < 48 || n > 57 {
            assert(!is_digit(t[i - start]));
            return None;
        }
        proof {
            let next = t.take(i + 1 - start);
            assert(next.drop_last() == t.take(i - start));
            assert forall|j: int| 0 <= j < next.len() implies is_digit(#[trigger] next[j]) by {
                if j < next.len() - 1 {
                    assert(next[j] == t.take(i - start)[j]);
                }
            }
        }
        acc = acc * 10 + (n - 48) as u64;
        if acc > 4294967295 {
            acc = 4294967296;
        }
        i = i + 1;
    }
    assert(t.take(i - start) == t);
    if acc > 4294967295 {
        None
    } else {
        Some(acc as u32)
    }
}

/// The lower-case hexadecimal digit for `d`.
pub open spec fn hex_digit(d: int) -> char {
    if d < 10 {
        (48 + d) as char
    } else {
        (87 + d) as char
    }
}

/// Whether `c` is a hexadecimal digit of either case.
pub open spec fn is_hex_digit(c: char) -> bool {
    let n = c as u32;
    48 <= n <= 57 || 97 <= n <= 102 || 65 <= n <= 70
}

/// What the hexadecimal digit `c` counts.
pub open spec fn hex_digit_value(c: char) -> int {
    let n = c as u32;
    if n <= 57 {
        n - 48
    } else if n >= 97 {
        n - 87
    } else {
        n - 55
    }
}

/// `n` in lower-case hexadecimal, without leading zeros.
pub open spec fn hex(n: nat) -> Seq<char>
    decreases n,
{
    if n < 16 {
        seq![hex_digit(n as int)]
    } else {
        hex(n / 16).push(hex_digit((n % 16) as int))
    }
}

/// Whether every character of `s` is a hexadecimal digit.
pub open spec fn all_hex(s: Seq<char>) -> bool {
    forall|i: int| 0 <= i < s.len() ==> is_hex_digit(#[trigger] s[i])
}

/// The number whose hexadecimal digits are `s`.
pub open spec fn hex_value(s: Seq<char>) -> nat
    decreases s.len(),
{
    if s.len() == 0 {
        0
    } else {
        hex_value(s.drop_last()) * 16 + hex_digit_value(s.last()) as nat
    }
}

/// `n` in hexadecimal.
pub fn hex_text(n: u16) -> (r: String)
    ensures
        r@ == hex(n as nat),
    decreases n,
{
    let low: u8 = (n % 16) as u8;
    let c: char = if low < 10 {
        (48u8 + low) as char
    } else {
        (87u8 + low) as char
    };
    if n < 16 {
        let mut s = String::new();
        s.push(c);
        assert(s@ == seq![hex_digit(n as int)]);
        s
    } else {
        let mut s = hex_text(n / 16);
        s.push(c);
        s
    }
}

proof fn lemma_hex_digit(d: int)
    requires
        0 <= d < 16,
    ensures
        is_hex_digit(hex_digit(d)),
        hex_digit_value(hex_digit(d)) == d,
{
}

/// Hexadecimal text is made of hexadecimal digits, its value is the number it was made
/// from, and a number below `16^k` takes at most `k` digits.
pub proof fn lemma_hex(n: nat)
    ensures
        hex(n).len() >= 1,
        all_hex(hex(n)),
        hex_value(hex(n)) == n,
        n <= 0xffff ==> hex(n).len() <= 4,
        n <= 0xfff ==> hex(n).len() <= 3,
        n <= 0xff ==> hex(n).len() <= 2,
        n <= 0xf ==> hex(n).len() <= 1,
    decreases n,
{
    if n < 16 {
        lemma_hex_digit(n as int);
        let s = seq![hex_digit(n as int)];
        assert(s.drop_last() == Seq::<char>::empty());
        assert(hex_value(s.drop_last()) == 0);
    } else {
        lemma_hex(n / 16);
        lemma_hex_digit((n % 16) as int);
        let s = hex(n / 16).push(hex_digit((n % 16) as int));
        assert(s.drop_last() == hex(n / 16));
        assert forall|i: int| 0 <= i < s.len() implies is_hex_digit(#[trigger] s[i]) by {
            if i < s.len() - 1 {
                assert(s[i] == hex(n / 16)[i]);
            }
        }
    }
}

} // verus!
