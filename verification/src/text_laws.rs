//! What lines, words and numbers are.

use vstd::prelude::*;

use crate::digits::{
    decimal, hex, hex_value, is_digit, is_hex_digit, lemma_decimal,
    lemma_decimal_of_digits, lemma_hex, read_u32,
};
use crate::text::{
    chomp, contains, ends_with, is_space, join, lemma_join_first, lemma_until_is,
    lemma_word_len_is, lines, occurs_at, starts_with, trim, trim_end, trim_start, words,
};
use crate::text_lemmas::{lemma_lines_first, lemma_words_first};

verus! {

/// Of the plain characters the space, the tabs, the line ends and the page feed are white space,
/// and no other; beyond them the wide and the unbreakable spaces are too.
pub proof fn white_space_is_what_separates_words(c: char)
    ensures
        (c as u32) < 0x80 ==> (is_space(c) <==> c == ' ' || c == '\t' || c == '\n' || c == '\r' || (
        c as u32) == 0xb || (c as u32) == 0xc),
        c == '\u{a0}' || c == '\u{85}' || c == '\u{2003}' || c == '\u{3000}' ==> is_space(c),
{
}

/// A text falls into lines at its newlines: each line is what stands before one, less a carriage
/// return right before it, and what stands behind the last is a line unless it is nothing.
pub proof fn a_text_falls_into_lines_at_its_newlines(l: Seq<char>, rest: Seq<char>)
    requires
        !l.contains('\n'),
    ensures
        lines(l + seq!['\n'] + rest) == seq![
            if l.len() > 0 && l.last() == '\r' {
                l.drop_last()
            } else {
                l
            },
        ] + lines(rest),
        l.len() > 0 ==> lines(l) == seq![l],
        lines(seq![]).len() == 0,
{
    lemma_lines_first(l, rest);
    assert(chomp(l) == (if l.len() > 0 && l.last() == '\r' {
        l.drop_last()
    } else {
        l
    }));
    if l.len() > 0 {
        assert forall|i: int| 0 <= i < l.len() implies #[trigger] l[i] != '\n' by {
            assert(l.contains(l[i]));
        }
        lemma_until_is(l, '\n', l.len() as int);
    }
}

/// A text falls into words at its white space, however much of it there is: a word and what is
/// behind it, or nothing.
pub proof fn a_text_falls_into_words_at_its_white_space(w: Seq<char>, c: char, rest: Seq<char>)
    requires
        w.len() > 0,
        forall|i: int| 0 <= i < w.len() ==> !is_space(#[trigger] w[i]),
        is_space(c),
    ensures
        words(w + seq![c] + rest) == seq![w] + words(rest),
        words(w) == seq![w],
        words(seq![c] + rest) == words(rest),
        words(seq![]).len() == 0,
{
    lemma_words_first(w, c, rest);
    lemma_word_len_is(w, w.len() as int);
    assert(w.take(w.len() as int) =~= w);
    assert(w.skip(w.len() as int).len() == 0);
    assert(seq![w] + words(w.skip(w.len() as int)) =~= seq![w]);
    let s = seq![c] + rest;
    assert(s.drop_first() =~= rest);
}

proof fn lemma_trim_start_parts(s: Seq<char>)
    ensures
        trim_start(s).len() <= s.len(),
        trim_start(s) == s.skip(s.len() - trim_start(s).len()),
        forall|i: int| 0 <= i < s.len() - trim_start(s).len() ==> is_space(#[trigger] s[i]),
        trim_start(s).len() > 0 ==> !is_space(trim_start(s)[0]),
    decreases s.len(),
{
    if s.len() > 0 && is_space(s[0]) {
        let t = s.drop_first();
        lemma_trim_start_parts(t);
        assert(trim_start(s) =~= s.skip(s.len() - trim_start(s).len()));
        assert forall|i: int| 0 <= i < s.len() - trim_start(s).len() implies is_space(
            #[trigger] s[i],
        ) by {
            if i > 0 {
                assert(s[i] == t[i - 1]);
            }
        }
    } else {
        assert(s.skip(0) =~= s);
    }
}

proof fn lemma_trim_end_parts(s: Seq<char>)
    ensures
        trim_end(s).len() <= s.len(),
        trim_end(s) == s.take(trim_end(s).len() as int),
        forall|i: int| trim_end(s).len() <= i < s.len() ==> is_space(#[trigger] s[i]),
        trim_end(s).len() > 0 ==> !is_space(trim_end(s).last()),
    decreases s.len(),
{
    if s.len() > 0 && is_space(s.last()) {
        let t = s.drop_last();
        lemma_trim_end_parts(t);
        assert(trim_end(s) =~= s.take(trim_end(s).len() as int));
        assert forall|i: int| trim_end(s).len() <= i < s.len() implies is_space(#[trigger] s[i]) by {
            if i < t.len() {
                assert(s[i] == t[i]);
            }
        }
    } else {
        assert(s.take(s.len() as int) =~= s);
    }
}

/// Trimming takes the white space off both ends and nothing else: what is left stands in the text
/// with only white space round it, and has none at either end.
pub proof fn trimming_takes_the_white_space_off_both_ends(s: Seq<char>)
    ensures
        exists|a: int, b: int|
            0 <= a <= b <= s.len() && #[trigger] s.subrange(a, b) == trim(s) && (forall|i: int|
                0 <= i < a ==> is_space(#[trigger] s[i])) && (forall|i: int|
                b <= i < s.len() ==> is_space(#[trigger] s[i])),
        trim(s).len() > 0 ==> !is_space(trim(s)[0]) && !is_space(trim(s).last()),
{
    let t = trim_start(s);
    lemma_trim_start_parts(s);
    lemma_trim_end_parts(t);
    let a = s.len() - t.len();
    let b = a + trim(s).len();
    assert(s.subrange(a, b) =~= trim(s));
    assert forall|i: int| b <= i < s.len() implies is_space(#[trigger] s[i]) by {
        assert(s[i] == t[i - a]);
    }
    if trim(s).len() > 0 {
        assert(trim(s)[0] == t[0]);
    }
}

/// Joined texts stand one after another with the separator between each two of them.
pub proof fn joined_texts_stand_one_after_another(
    first: Seq<char>,
    rest: Seq<Seq<char>>,
    sep: Seq<char>,
)
    ensures
        rest.len() > 0 ==> join(seq![first] + rest, sep) == first + sep + join(rest, sep),
        join(seq![first], sep) == first,
        join(seq![], sep).len() == 0,
{
    if rest.len() > 0 {
        lemma_join_first(first, rest, sep);
    }
}

/// A text begins, and ends, with another exactly where the other and something more make it up.
pub proof fn a_text_is_made_up_of_its_ends(s: Seq<char>, part: Seq<char>, more: Seq<char>)
    ensures
        starts_with(part + more, part),
        ends_with(more + part, part),
        starts_with(s, part) ==> s == part + s.skip(part.len() as int),
        ends_with(s, part) ==> s == s.take(s.len() - part.len()) + part,
{
    assert((part + more).take(part.len() as int) =~= part);
    assert((more + part).skip(more.len() as int) =~= part);
    if starts_with(s, part) {
        assert(s =~= s.take(part.len() as int) + s.skip(part.len() as int));
    }
    if ends_with(s, part) {
        assert(s =~= s.take(s.len() - part.len()) + s.skip(s.len() - part.len()));
    }
}

/// A text contains another wherever something, or nothing, stands before and behind it.
pub proof fn a_text_contains_what_it_is_made_of(before: Seq<char>, part: Seq<char>, after: Seq<char>)
    ensures
        contains(before + part + after, part),
{
    let whole = before + part + after;
    let at = before.len() as int;
    assert(whole.subrange(at, at + part.len()) =~= part);
    assert(occurs_at(whole, part, at));
}

/// Where a text contains another, it is made of what stands before it, of it, and of what stands
/// behind it.
pub proof fn a_text_is_made_of_what_it_contains(s: Seq<char>, part: Seq<char>)
    requires
        contains(s, part),
    ensures
        exists|a: Seq<char>, b: Seq<char>| s == #[trigger] (a + part + b),
{
    let i = choose|i: int| occurs_at(s, part, i);
    let a = s.take(i);
    let b = s.skip(i + part.len());
    assert(s =~= a + part + b);
}

/// Decimal text is the digits of the number, most significant first and without a zero in front;
/// another digit behind it multiplies by ten. Every number has its own.
pub proof fn decimal_text_is_the_digits_of_the_number(n: nat, m: nat, d: nat)
    requires
        d < 10,
    ensures
        decimal(0) == seq!['0'],
        decimal(9) == seq!['9'],
        n > 0 ==> decimal(n * 10 + d) == decimal(n) + decimal(d),
        n > 0 ==> decimal(n)[0] != '0',
        decimal(n) == decimal(m) <==> n == m,
{
    lemma_decimal(n);
    lemma_decimal(m);
    assert(decimal(0) =~= seq!['0']);
    assert(decimal(9) =~= seq!['9']);
    if n > 0 {
        assert((n * 10 + d) / 10 == n && (n * 10 + d) % 10 == d);
        assert(decimal(n * 10 + d) =~= decimal(n) + decimal(d));
        lemma_no_leading_zero(n);
    }
}

proof fn lemma_no_leading_zero(n: nat)
    requires
        n > 0,
    ensures
        decimal(n).len() > 0,
        decimal(n)[0] != '0',
    decreases n,
{
    if n >= 10 {
        lemma_no_leading_zero(n / 10);
        assert(decimal(n)[0] == decimal(n / 10)[0]);
    }
}

/// A number reads back from its decimal text, with a plus sign in front or without, exactly as
/// far as it fits; what is not made of digits is no number.
pub proof fn a_number_reads_back_from_its_text(n: nat, s: Seq<char>)
    ensures
        n <= u32::MAX ==> read_u32(decimal(n)) == Some(n as u32),
        n > u32::MAX ==> read_u32(decimal(n)) is None,
        read_u32(seq!['+'] + decimal(n)) == read_u32(decimal(n)),
        read_u32(seq![]) is None,
        read_u32(seq!['+']) is None,
        (exists|i: int| 1 <= i < s.len() && !(48 <= (#[trigger] s[i]) as u32 <= 57)) ==> read_u32(s) is None,
        read_u32(s) is Some && s[0] != '+' && s[0] != '0' ==> s == decimal(read_u32(s)->0 as nat),
{
    lemma_decimal(n);
    let t = decimal(n);
    assert(is_digit(t[0]));
    let plus = seq!['+'] + t;
    assert(plus.skip(1) =~= t);
    assert(seq!['+'].skip(1).len() == 0);
    if exists|i: int| 1 <= i < s.len() && !(48 <= (#[trigger] s[i]) as u32 <= 57) {
        let i = choose|i: int| 1 <= i < s.len() && !(48 <= (#[trigger] s[i]) as u32 <= 57);
        assert(!is_digit(s[i]));
        if s[0] == '+' {
            assert(s.skip(1)[i - 1] == s[i]);
        }
    }
    if read_u32(s) is Some && s[0] != '+' && s[0] != '0' {
        lemma_decimal_of_digits(s);
    }
}

/// Hexadecimal text reads back as the number it was made from; its letters are small, and the
/// capital ones count the same.
pub proof fn hexadecimal_text_reads_back(n: nat, i: int)
    ensures
        hex_value(hex(n)) == n,
        0 <= i < hex(n).len() ==> '0' <= hex(n)[i] <= '9' || 'a' <= hex(n)[i] <= 'f',
        is_hex_digit('F') && !is_hex_digit('g') && !is_hex_digit('G') && !is_hex_digit(':'),
        hex_value(seq!['F']) == hex_value(seq!['f']),
        hex_value(seq!['A']) == 10,
    decreases n,
{
    lemma_hex(n);
    reveal_with_fuel(hex_value, 2);
    if n >= 16 && i < hex(n).len() - 1 {
        hexadecimal_text_reads_back(n / 16, i);
        assert(0 <= i ==> hex(n)[i] == hex(n / 16)[i]);
    }
}

} // verus!
