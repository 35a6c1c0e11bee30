//! Text as the library sees it: sequences of characters.
//!
//! The specification functions say what a configuration file's lines and words are; the
//! executable functions compute them.

use vstd::prelude::*;

verus! {

/// Appending one character puts it at the end of the string (`String::push`).
pub assume_specification[ String::push ](s: &mut String, c: char)
    ensures
        final(s)@ == old(s)@.push(c),
;

/// Appending a string slice puts its characters at the end (`String::push_str`).
pub assume_specification[ String::push_str ](s: &mut String, other: &str)
    ensures
        final(s)@ == old(s)@ + other@,
;

/// The characters with Unicode's `White_Space` property.
pub open spec fn is_space(c: char) -> bool {
    let n = c as u32;
    ||| 0x9 <= n <= 0xd
    ||| n == 0x20
    ||| n == 0x85
    ||| n == 0xa0
    ||| n == 0x1680
    ||| 0x2000 <= n <= 0x200a
    ||| n == 0x2028
    ||| n == 0x2029
    ||| n == 0x202f
    ||| n == 0x205f
    ||| n == 0x3000
}

/// Whether `c` is white space.
pub fn char_is_space(c: char) -> (r: bool)
    ensures
        r == is_space(c),
{
    let n: u32 = c as u32;
    (0x9 <= n && n <= 0xd) || n == 0x20 || n == 0x85 || n == 0xa0 || n == 0x1680
        || (0x2000 <= n && n <= 0x200a) || n == 0x2028 || n == 0x2029 || n == 0x202f
        || n == 0x205f || n == 0x3000
}

/// The texts a list of strings holds.
pub open spec fn texts(v: Seq<String>) -> Seq<Seq<char>> {
    Seq::new(v.len(), |i: int| v[i]@)
}

/// The text an optional string holds.
pub open spec fn opt_text(o: Option<String>) -> Option<Seq<char>> {
    match o {
        Some(s) => Some(s@),
        None => None,
    }
}

/// The text an optional string slice holds.
pub open spec fn opt_str(o: Option<&str>) -> Option<Seq<char>> {
    match o {
        Some(s) => Some(s@),
        None => None,
    }
}

/// `s` without its leading white space.
pub open spec fn trim_start(s: Seq<char>) -> Seq<char>
    decreases s.len(),
{
    if s.len() > 0 && is_space(s[0]) {
        trim_start(s.drop_first())
    } else {
        s
    }
}

/// `s` without its trailing white space.
pub open spec fn trim_end(s: Seq<char>) -> Seq<char>
    decreases s.len(),
{
    if s.len() > 0 && is_space(s.last()) {
        trim_end(s.drop_last())
    } else {
        s
    }
}

/// `s` without the white space at its ends.
pub open spec fn trim(s: Seq<char>) -> Seq<char> {
    trim_end(trim_start(s))
}

/// How many characters of `s` come before its first `c`, or before its end.
pub open spec fn until(s: Seq<char>, c: char) -> nat
    decreases s.len(),
{
    if s.len() == 0 || s[0] == c {
        0
    } else {
        1 + until(s.drop_first(), c)
    }
}

/// How many characters of `s` come before its first white space, or before its end.
pub open spec fn word_len(s: Seq<char>) -> nat
    decreases s.len(),
{
    if s.len() == 0 || is_space(s[0]) {
        0
    } else {
        1 + word_len(s.drop_first())
    }
}

/// `s` without one trailing carriage return.
pub open spec fn chomp(s: Seq<char>) -> Seq<char> {
    if s.len() > 0 && s.last() == '\r' {
        s.drop_last()
    } else {
        s
    }
}

/// The lines of `s`: what stands before each newline, less a carriage return right before
/// it, and what stands after the last newline unless that is nothing.
pub open spec fn lines(s: Seq<char>) -> Seq<Seq<char>>
    decreases s.len(),
    via lines_shrink
{
    if s.len() == 0 {
        seq![]
    } else if until(s, '\n') >= s.len() {
        seq![s]
    } else {
        seq![chomp(s.take(until(s, '\n') as int))] + lines(s.skip(until(s, '\n') as int + 1))
    }
}

#[via_fn]
proof fn lines_shrink(s: Seq<char>) {
}

/// The pieces of `s` between the `c`s.
pub open spec fn split(s: Seq<char>, c: char) -> Seq<Seq<char>>
    decreases s.len(),
    via split_shrink
{
    if until(s, c) >= s.len() {
        seq![s]
    } else {
        seq![s.take(until(s, c) as int)] + split(s.skip(until(s, c) as int + 1), c)
    }
}

#[via_fn]
proof fn split_shrink(s: Seq<char>, c: char) {
}

/// The words of `s`: its longest runs of characters that are not white space.
pub open spec fn words(s: Seq<char>) -> Seq<Seq<char>>
    decreases s.len(),
    via words_shrink
{
    if s.len() == 0 {
        seq![]
    } else if is_space(s[0]) {
        words(s.drop_first())
    } else {
        seq![s.take(word_len(s) as int)] + words(s.skip(word_len(s) as int))
    }
}

#[via_fn]
proof fn words_shrink(s: Seq<char>) {
    if s.len() > 0 {
        lemma_word_len(s);
    }
}

/// `parts` one after another with `sep` between neighbours.
pub open spec fn join(parts: Seq<Seq<char>>, sep: Seq<char>) -> Seq<char>
    decreases parts.len(),
{
    if parts.len() == 0 {
        seq![]
    } else if parts.len() == 1 {
        parts[0]
    } else {
        join(parts.drop_last(), sep) + sep + parts.last()
    }
}

/// Whether `s` begins with `prefix`.
pub open spec fn starts_with(s: Seq<char>, prefix: Seq<char>) -> bool {
    s.len() >= prefix.len() && s.take(prefix.len() as int) == prefix
}

/// Whether `s` ends with `suffix`.
pub open spec fn ends_with(s: Seq<char>, suffix: Seq<char>) -> bool {
    s.len() >= suffix.len() && s.skip(s.len() - suffix.len()) == suffix
}

/// Whether `part` occurs in `s` at position `i`.
pub open spec fn occurs_at(s: Seq<char>, part: Seq<char>, i: int) -> bool {
    0 <= i && i + part.len() <= s.len() && s.subrange(i, i + part.len()) == part
}

/// Whether `part` occurs somewhere in `s`.
pub open spec fn contains(s: Seq<char>, part: Seq<char>) -> bool {
    exists|i: int| occurs_at(s, part, i)
}

/// A word's length is positive where there is a word, and within the text.
pub proof fn lemma_word_len(s: Seq<char>)
    ensures
        word_len(s) <= s.len(),
        forall|i: int| 0 <= i < word_len(s) ==> !is_space(#[trigger] s[i]),
        word_len(s) < s.len() ==> is_space(s[word_len(s) as int]),
        s.len() > 0 && !is_space(s[0]) ==> word_len(s) > 0,
    decreases s.len(),
{
    if s.len() == 0 || is_space(s[0]) {
    } else {
        lemma_word_len(s.drop_first());
        assert forall|i: int| 0 <= i < word_len(s) implies !is_space(#[trigger] s[i]) by {
            if i > 0 {
                assert(s[i] == s.drop_first()[i - 1]);
            }
        }
    }
}

/// The two properties that make a number the length of `s`'s first word.
pub proof fn lemma_word_len_is(s: Seq<char>, n: int)
    requires
        0 <= n <= s.len(),
        forall|i: int| 0 <= i < n ==> !is_space(#[trigger] s[i]),
        n < s.len() ==> is_space(s[n]),
    ensures
        word_len(s) == n,
{
    lemma_word_len(s);
    let m = word_len(s) as int;
    if m < n {
        assert(!is_space(s[m]));
    }
    if n < m {
        assert(!is_space(s[n]));
    }
}

/// The first `c` is within the text, if there is one, and none comes before it.
pub proof fn lemma_until(s: Seq<char>, c: char)
    ensures
        until(s, c) <= s.len(),
        forall|i: int| 0 <= i < until(s, c) ==> #[trigger] s[i] != c,
        until(s, c) < s.len() ==> s[until(s, c) as int] == c,
    decreases s.len(),
{
    if s.len() == 0 || s[0] == c {
    } else {
        lemma_until(s.drop_first(), c);
        assert forall|i: int| 0 <= i < until(s, c) implies #[trigger] s[i] != c by {
            if i > 0 {
                assert(s[i] == s.drop_first()[i - 1]);
            }
        }
    }
}

/// The two properties that make a number the position of the first `c`.
pub proof fn lemma_until_is(s: Seq<char>, c: char, n: int)
    requires
        0 <= n <= s.len(),
        forall|i: int| 0 <= i < n ==> #[trigger] s[i] != c,
        n < s.len() ==> s[n] == c,
    ensures
        until(s, c) == n,
{
    lemma_until(s, c);
    let m = until(s, c) as int;
    if m < n {
        assert(s[m] != c);
    }
    if n < m {
        assert(s[n] != c);
    }
}

/// The characters of `s`, one by one.
pub fn chars_of(s: &str) -> (r: Vec<char>)
    ensures
        r@ == s@,
{
    let mut out: Vec<char> = Vec::new();
    for c in it: s.chars()
        invariant
            it.seq() == s@,
            out@ == s@.take(it.index() as int),
    {
        out.push(c);
        assert(s@.take(it.index() + 1) == s@.take(it.index() as int).push(c));
    }
    assert(s@.take(s@.len() as int) == s@);
    out
}

/// The text of `v` from `lo` up to, not including, `hi`.
pub fn slice_text(v: &Vec<char>, lo: usize, hi: usize) -> (r: String)
    requires
        lo <= hi <= v@.len(),
    ensures
        r@ == v@.subrange(lo as int, hi as int),
{
    let mut out = String::new();
    let mut i: usize = lo;
    while i < hi
        invariant
            lo <= i <= hi <= v@.len(),
            out@ == v@.subrange(lo as int, i as int),
        decreases hi - i,
    {
        out.push(v[i]);
        assert(v@.subrange(lo as int, i + 1) == v@.subrange(lo as int, i as int).push(v@[i as int]));
        i = i + 1;
    }
    out
}

/// Whether `a` and `b` hold the same characters.
pub fn text_eq(a: &str, b: &str) -> (r: bool)
    ensures
        r == (a@ == b@),
{
    let x: Vec<char> = chars_of(a);
    let y: Vec<char> = chars_of(b);
    if x.len() != y.len() {
        return false;
    }
    let mut i: usize = 0;
    while i < x.len()
        invariant
            i <= x@.len(),
            x@.len() == y@.len(),
            x@ == a@,
            y@ == b@,
            x@.take(i as int) == y@.take(i as int),
        decreases x@.len() - i,
    {
        if x[i] != y[i] {
            assert(a@[i as int] != b@[i as int]);
            return false;
        }
        assert(x@.take(i + 1) == x@.take(i as int).push(x@[i as int]));
        assert(y@.take(i + 1) == y@.take(i as int).push(y@[i as int]));
        i = i + 1;
    }
    assert(x@.take(i as int) == x@);
    assert(y@.take(i as int) == y@);
    true
}

/// Whether `part` occurs in `v` at position `at`.
pub fn matches_at(v: &Vec<char>, part: &Vec<char>, at: usize) -> (r: bool)
    requires
        at <= v@.len(),
    ensures
        r == occurs_at(v@, part@, at as int),
{
    let total: usize = v.len();
    if part.len() > total - at {
        return false;
    }
    let mut i: usize = 0;
    while i < part.len()
        invariant
            i <= part@.len(),
            total == v@.len(),
            at + part@.len() <= total,
            forall|j: int| 0 <= j < i ==> part@[j] == v@[at + j],
        decreases part@.len() - i,
    {
        if v[at + i] != part[i] {
            assert(v@.subrange(at as int, at + part@.len())[i as int] != part@[i as int]);
            return false;
        }
        i = i + 1;
    }
    assert(v@.subrange(at as int, at + part@.len()) =~= part@);
    true
}

/// Whether `s` begins with `prefix`.
pub fn text_starts_with(s: &str, prefix: &str) -> (r: bool)
    ensures
        r == starts_with(s@, prefix@),
{
    let v: Vec<char> = chars_of(s);
    let p: Vec<char> = chars_of(prefix);
    let r: bool = matches_at(&v, &p, 0);
    assert(p@.len() <= v@.len() ==> v@.subrange(0, p@.len() as int) == v@.take(p@.len() as int));
    r
}

/// Whether `s` ends with `suffix`.
pub fn text_ends_with(s: &str, suffix: &str) -> (r: bool)
    ensures
        r == ends_with(s@, suffix@),
{
    let v: Vec<char> = chars_of(s);
    let p: Vec<char> = chars_of(suffix);
    if p.len() > v.len() {
        return false;
    }
    let at: usize = v.len() - p.len();
    assert(v@.subrange(at as int, at + p@.len()) == v@.skip(at as int));
    matches_at(&v, &p, at)
}

/// What follows `prefix` in `s`, where `s` begins with it.
pub fn text_strip_prefix(s: &str, prefix: &str) -> (r: Option<String>)
    ensures
        opt_text(r) == (if starts_with(s@, prefix@) {
            Some(s@.skip(prefix@.len() as int))
        } else {
            None
        }),
{
    if !text_starts_with(s, prefix) {
        return None;
    }
    let v: Vec<char> = chars_of(s);
    let p: Vec<char> = chars_of(prefix);
    let rest = slice_text(&v, p.len(), v.len());
    assert(rest@ == s@.skip(prefix@.len() as int));
    Some(rest)
}

/// Whether `part` occurs somewhere in `s`.
pub fn text_contains(s: &str, part: &str) -> (r: bool)
    ensures
        r == contains(s@, part@),
{
    let v: Vec<char> = chars_of(s);
    let p: Vec<char> = chars_of(part);
    let mut i: usize = 0;
    loop
        invariant
            v@ == s@,
            p@ == part@,
            i <= v@.len(),
            forall|j: int| 0 <= j < i ==> !occurs_at(s@, part@, j),
        decreases v@.len() - i,
    {
        if matches_at(&v, &p, i) {
            return true;
        }
        if i == v.len() {
            return false;
        }
        i = i + 1;
    }
}

/// Whether `list` holds `item`.
pub fn list_contains(list: &Vec<String>, item: &str) -> (r: bool)
    ensures
        r == texts(list@).contains(item@),
{
    let mut i: usize = 0;
    while i < list.len()
        invariant
            i <= list@.len(),
            forall|j: int| 0 <= j < i ==> texts(list@)[j] != item@,
        decreases list@.len() - i,
    {
        if text_eq(list[i].as_str(), item) {
            assert(texts(list@)[i as int] == item@);
            return true;
        }
        i = i + 1;
    }
    false
}

proof fn lemma_trim_start_skip(s: Seq<char>, n: int)
    requires
        0 <= n <= s.len(),
        forall|i: int| 0 <= i < n ==> is_space(#[trigger] s[i]),
    ensures
        trim_start(s) == trim_start(s.skip(n)),
    decreases n,
{
    if n == 0 {
        assert(s.skip(0) == s);
    } else {
        assert forall|i: int| 0 <= i < n - 1 implies is_space(#[trigger] s.drop_first()[i]) by {
            assert(s.drop_first()[i] == s[i + 1]);
        }
        lemma_trim_start_skip(s.drop_first(), n - 1);
        assert(s.drop_first().skip(n - 1) == s.skip(n));
    }
}

proof fn lemma_trim_end_take(s: Seq<char>, n: int)
    requires
        0 <= n <= s.len(),
        forall|i: int| n <= i < s.len() ==> is_space(#[trigger] s[i]),
    ensures
        trim_end(s) == trim_end(s.take(n)),
    decreases s.len() - n,
{
    if n == s.len() {
        assert(s.take(n) == s);
    } else {
        assert forall|i: int| n <= i < s.len() - 1 implies is_space(#[trigger] s.drop_last()[i]) by {
            assert(s.drop_last()[i] == s[i]);
        }
        lemma_trim_end_take(s.drop_last(), n);
        assert(s.drop_last().take(n) == s.take(n));
    }
}

/// `s` without the white space at its ends.
pub fn text_trim(s: &str) -> (r: String)
    ensures
        r@ == trim(s@),
{
    let v: Vec<char> = chars_of(s);
    let mut lo: usize = 0;
    while lo < v.len() && char_is_space(v[lo])
        invariant
            lo <= v@.len(),
            forall|i: int| 0 <= i < lo ==> is_space(#[trigger] v@[i]),
        decreases v@.len() - lo,
    {
        lo = lo + 1;
    }
    let mut hi: usize = v.len();
    while hi > lo && char_is_space(v[hi - 1])
        invariant
            lo <= hi <= v@.len(),
            forall|i: int| hi <= i < v@.len() ==> is_space(#[trigger] v@[i]),
        decreases hi,
    {
        hi = hi - 1;
    }
    proof {
        let t = s@.skip(lo as int);
        lemma_trim_start_skip(s@, lo as int);
        assert(trim_start(t) == t);
        lemma_trim_end_take(t, hi - lo);
        assert(t.take(hi - lo) == s@.subrange(lo as int, hi as int));
        assert(trim_end(t.take(hi - lo)) == t.take(hi - lo));
    }
    slice_text(&v, lo, hi)
}

/// The lines of `s`.
pub fn lines_of(s: &str) -> (r: Vec<String>)
    ensures
        texts(r@) == lines(s@),
{
    let v: Vec<char> = chars_of(s);
    let mut out: Vec<String> = Vec::new();
    let mut pos: usize = 0;
    assert(s@.skip(0) == s@);
    while pos < v.len()
        invariant
            pos <= v@.len(),
            v@ == s@,
            texts(out@) + lines(s@.skip(pos as int)) == lines(s@),
        decreases v@.len() - pos,
    {
        let ghost before = out@;
        let ghost t = s@.skip(pos as int);
        let mut end: usize = pos;
        while end < v.len() && v[end] != '\n'
            invariant
                pos <= end <= v@.len(),
                forall|i: int| pos <= i < end ==> #[trigger] v@[i] != '\n',
            decreases v@.len() - end,
        {
            end = end + 1;
        }
        proof {
            assert forall|i: int| 0 <= i < end - pos implies #[trigger] t[i] != '\n' by {
                assert(t[i] == v@[pos + i]);
            }
            lemma_until_is(t, '\n', end - pos);
        }
        if end == v.len() {
            let last = slice_text(&v, pos, end);
            assert(last@ == t);
            out.push(last);
            assert(texts(out@) == texts(before).push(t));
            assert(s@.skip(end as int).len() == 0);
            assert(texts(before) + seq![t] == texts(before).push(t));
            pos = end;
        } else {
            let mut stop: usize = end;
            if end > pos && v[end - 1] == '\r' {
                stop = end - 1;
            }
            let line = slice_text(&v, pos, stop);
            proof {
                assert(t.take(end - pos) == v@.subrange(pos as int, end as int));
                if end > pos {
                    assert(t.take(end - pos).last() == v@[end - 1]);
                }
                assert(line@ == chomp(t.take(end - pos)));
                assert(t.skip(end - pos + 1) == s@.skip(end + 1));
            }
            out.push(line);
            assert(texts(out@) == texts(before).push(line@));
            assert(texts(before) + (seq![line@] + lines(s@.skip(end + 1)))
                == texts(before).push(line@) + lines(s@.skip(end + 1)));
            pos = end + 1;
        }
    }
    assert(s@.skip(pos as int).len() == 0);
    assert(texts(out@) + Seq::<Seq<char>>::empty() == texts(out@));
    out
}

/// The pieces of `s` between the `c`s.
pub fn split_of(s: &str, c: char) -> (r: Vec<String>)
    ensures
        texts(r@) == split(s@, c),
{
    let v: Vec<char> = chars_of(s);
    let mut out: Vec<String> = Vec::new();
    let mut pos: usize = 0;
    assert(s@.skip(0) == s@);
    loop
        invariant
            pos <= v@.len(),
            v@ == s@,
            texts(out@) + split(s@.skip(pos as int), c) == split(s@, c),
        decreases v@.len() - pos,
    {
        let ghost before = out@;
        let ghost t = s@.skip(pos as int);
        let mut end: usize = pos;
        while end < v.len() && v[end] != c
            invariant
                pos <= end <= v@.len(),
                forall|i: int| pos <= i < end ==> #[trigger] v@[i] != c,
            decreases v@.len() - end,
        {
            end = end + 1;
        }
        let piece = slice_text(&v, pos, end);
        proof {
            assert forall|i: int| 0 <= i < end - pos implies #[trigger] t[i] != c by {
                assert(t[i] == v@[pos + i]);
            }
            lemma_until_is(t, c, end - pos);
            assert(piece@ == t.take(end - pos));
        }
        out.push(piece);
        assert(texts(out@) == texts(before).push(piece@));
        if end == v.len() {
            assert(piece@ == t);
            assert(texts(before) + seq![t] == texts(before).push(t));
            return out;
        }
        assert(t.skip(end - pos + 1) == s@.skip(end + 1));
        assert(texts(before) + (seq![piece@] + split(s@.skip(end + 1), c))
            == texts(before).push(piece@) + split(s@.skip(end + 1), c));
        pos = end + 1;
    }
}

/// Putting the pieces together again gives the text back.
pub proof fn lemma_join_split(s: Seq<char>, c: char)
    ensures
        split(s, c).len() >= 1,
        join(split(s, c), seq![c]) == s,
        forall|i: int| 0 <= i < split(s, c).len() ==> !(#[trigger] split(s, c)[i]).contains(c),
    decreases s.len(),
{
    lemma_until(s, c);
    let n = until(s, c) as int;
    if n >= s.len() {
        assert(split(s, c)[0] == s);
    } else {
        let rest = s.skip(n + 1);
        lemma_join_split(rest, c);
        lemma_join_first(s.take(n), split(rest, c), seq![c]);
        assert(s.take(n) + seq![c] + rest == s);
        assert forall|i: int| 0 <= i < split(s, c).len() implies !(#[trigger] split(s, c)[i]).contains(
            c,
        ) by {
            if i > 0 {
                assert(split(s, c)[i] == split(rest, c)[i - 1]);
            }
        }
    }
}

/// A first part comes before the separator and the rest.
pub proof fn lemma_join_first(first: Seq<char>, rest: Seq<Seq<char>>, sep: Seq<char>)
    requires
        rest.len() > 0,
    ensures
        join(seq![first] + rest, sep) == first + sep + join(rest, sep),
    decreases rest.len(),
{
    let all = seq![first] + rest;
    assert(all.last() == rest.last());
    if rest.len() == 1 {
        assert(all.drop_last() == seq![first]);
        assert(join(seq![first], sep) == first);
    } else {
        assert(all.drop_last() == seq![first] + rest.drop_last());
        lemma_join_first(first, rest.drop_last(), sep);
        assert(first + sep + join(rest.drop_last(), sep) + sep + rest.last() == first + sep + (join(
            rest.drop_last(),
            sep,
        ) + sep + rest.last()));
    }
}

/// Pieces that hold no separator come apart again as they were.
pub proof fn lemma_split_join(parts: Seq<Seq<char>>, c: char)
    requires
        parts.len() > 0,
        forall|i: int| 0 <= i < parts.len() ==> !(#[trigger] parts[i]).contains(c),
    ensures
        split(join(parts, seq![c]), c) == parts,
    decreases parts.len(),
{
    let first = parts[0];
    let all = join(parts, seq![c]);
    if parts.len() == 1 {
        assert(all == first);
        lemma_until_is(first, c, first.len() as int);
        assert(seq![first] == parts);
    } else {
        let rest = parts.drop_first();
        assert(parts == seq![first] + rest);
        lemma_join_first(first, rest, seq![c]);
        let tail = join(rest, seq![c]);
        assert(all == first + seq![c] + tail);
        assert forall|i: int| 0 <= i < first.len() implies #[trigger] all[i] != c by {
            assert(all[i] == first[i]);
        }
        lemma_until_is(all, c, first.len() as int);
        assert(all.take(first.len() as int) == first);
        assert(all.skip(first.len() as int + 1) == tail);
        assert forall|i: int| 0 <= i < rest.len() implies !(#[trigger] rest[i]).contains(c) by {
            assert(rest[i] == parts[i + 1]);
        }
        lemma_split_join(rest, c);
    }
}

/// The words of `s`.
pub fn words_of(s: &str) -> (r: Vec<String>)
    ensures
        texts(r@) == words(s@),
{
    let v: Vec<char> = chars_of(s);
    let mut out: Vec<String> = Vec::new();
    let mut pos: usize = 0;
    assert(s@.skip(0) == s@);
    while pos < v.len()
        invariant
            pos <= v@.len(),
            v@ == s@,
            texts(out@) + words(s@.skip(pos as int)) == words(s@),
        decreases v@.len() - pos,
    {
        let ghost before = out@;
        let ghost t = s@.skip(pos as int);
        if char_is_space(v[pos]) {
            assert(t[0] == v@[pos as int]);
            assert(t.drop_first() == s@.skip(pos + 1));
            pos = pos + 1;
        } else {
            let mut end: usize = pos + 1;
            while end < v.len() && !char_is_space(v[end])
                invariant
                    pos < end <= v@.len(),
                    forall|i: int| pos <= i < end ==> !is_space(#[trigger] v@[i]),
                decreases v@.len() - end,
            {
                end = end + 1;
            }
            let word = slice_text(&v, pos, end);
            proof {
                assert forall|i: int| 0 <= i < end - pos implies !is_space(#[trigger] t[i]) by {
                    assert(t[i] == v@[pos + i]);
                }
                lemma_word_len_is(t, end - pos);
                assert(t[0] == v@[pos as int]);
                assert(t.take(end - pos) == word@);
                assert(t.skip(end - pos) == s@.skip(end as int));
            }
            out.push(word);
            assert(texts(out@) == texts(before).push(word@));
            assert(texts(before) + (seq![word@] + words(s@.skip(end as int)))
                == texts(before).push(word@) + words(s@.skip(end as int)));
            pos = end;
        }
    }
    assert(s@.skip(pos as int).len() == 0);
    assert(texts(out@) + Seq::<Seq<char>>::empty() == texts(out@));
    out
}

/// `parts` one after another with `sep` between neighbours.
pub fn join_texts(parts: &Vec<String>, sep: &str) -> (r: String)
    ensures
        r@ == join(texts(parts@), sep@),
{
    let mut out = String::new();
    let mut i: usize = 0;
    while i < parts.len()
        invariant
            i <= parts@.len(),
            out@ == join(texts(parts@).take(i as int), sep@),
        decreases parts@.len() - i,
    {
        if i > 0 {
            out.push_str(sep);
        }
        out.push_str(parts[i].as_str());
        proof {
            let next = texts(parts@).take(i + 1);
            assert(next.drop_last() == texts(parts@).take(i as int));
        }
        i = i + 1;
    }
    assert(texts(parts@).take(i as int) == texts(parts@));
    out
}

} // verus!
