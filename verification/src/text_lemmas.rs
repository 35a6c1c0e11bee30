//! How lines and words behave under joining, trimming and line ends.

use vstd::prelude::*;

use crate::text::{
    chomp, is_space, join, lemma_join_first, lemma_until, lemma_until_is, lemma_word_len,
    lemma_word_len_is, lines, trim, trim_end, trim_start, until, word_len, words,
};

verus! {

/// Whether `w` is one word: some text without white space.
pub open spec fn is_word(w: Seq<char>) -> bool {
    w.len() > 0 && forall|i: int| 0 <= i < w.len() ==> !is_space(#[trigger] w[i])
}

/// White space at the end adds no word.
pub proof fn lemma_words_push_space(s: Seq<char>, c: char)
    requires
        is_space(c),
    ensures
        words(s.push(c)) == words(s),
    decreases s.len(),
{
    let t = s.push(c);
    if s.len() == 0 {
        assert(t.drop_first() =~= s);
        assert(t[0] == c);
    } else if is_space(s[0]) {
        assert(t[0] == s[0]);
        assert(t.drop_first() =~= s.drop_first().push(c));
        lemma_words_push_space(s.drop_first(), c);
    } else {
        let n = word_len(s) as int;
        lemma_word_len(s);
        assert(t[0] == s[0]);
        assert forall|i: int| 0 <= i < n implies !is_space(#[trigger] t[i]) by {
            assert(t[i] == s[i]);
        }
        assert(t[n] == (if n < s.len() {
            s[n]
        } else {
            c
        }));
        lemma_word_len_is(t, n);
        assert(t.take(n) =~= s.take(n));
        assert(t.skip(n) =~= s.skip(n).push(c));
        lemma_words_push_space(s.skip(n), c);
    }
}

proof fn lemma_trim_start_push_space(s: Seq<char>, c: char)
    requires
        is_space(c),
    ensures
        trim_start(s).len() == 0 ==> trim_start(s.push(c)).len() == 0,
        trim_start(s).len() > 0 ==> trim_start(s.push(c)) == trim_start(s).push(c),
    decreases s.len(),
{
    let t = s.push(c);
    if s.len() == 0 {
        assert(t.drop_first() =~= s);
    } else {
        assert(t[0] == s[0]);
        if is_space(s[0]) {
            assert(t.drop_first() =~= s.drop_first().push(c));
            lemma_trim_start_push_space(s.drop_first(), c);
        }
    }
}

/// White space at the end is trimmed away.
pub proof fn lemma_trim_push_space(s: Seq<char>, c: char)
    requires
        is_space(c),
    ensures
        trim(s.push(c)) == trim(s),
{
    lemma_trim_start_push_space(s, c);
    let a = trim_start(s);
    if a.len() == 0 {
        assert(trim_start(s.push(c)) =~= a);
    } else {
        assert(a.push(c).last() == c);
        assert(a.push(c).drop_last() =~= a);
    }
}

/// A carriage return at the end makes no difference to a line's words and its trimmed text.
pub proof fn lemma_chomp(l: Seq<char>)
    ensures
        words(chomp(l)) == words(l),
        trim(chomp(l)) == trim(l),
{
    if l.len() > 0 && l.last() == '\r' {
        assert(l.drop_last().push('\r') =~= l);
        lemma_words_push_space(l.drop_last(), '\r');
        lemma_trim_push_space(l.drop_last(), '\r');
    }
}

/// A text that begins with a line and its newline.
pub proof fn lemma_lines_first(l: Seq<char>, rest: Seq<char>)
    requires
        !l.contains('\n'),
    ensures
        lines(l + seq!['\n'] + rest) == seq![chomp(l)] + lines(rest),
{
    let s = l + seq!['\n'] + rest;
    assert forall|i: int| 0 <= i < l.len() implies #[trigger] s[i] != '\n' by {
        assert(s[i] == l[i]);
    }
    assert(s[l.len() as int] == '\n');
    lemma_until_is(s, '\n', l.len() as int);
    assert(s.take(l.len() as int) =~= l);
    assert(s.skip(l.len() as int + 1) =~= rest);
}

/// No line holds a newline.
pub proof fn lemma_lines_have_no_newline(s: Seq<char>)
    ensures
        forall|i: int| 0 <= i < lines(s).len() ==> !(#[trigger] lines(s)[i]).contains('\n'),
    decreases s.len(),
{
    if s.len() > 0 {
        lemma_until(s, '\n');
        let n = until(s, '\n') as int;
        if n >= s.len() {
            assert forall|i: int| 0 <= i < lines(s).len() implies !(#[trigger] lines(
                s,
            )[i]).contains('\n') by {
                assert(lines(s)[i] == s);
            }
        } else {
            let rest = s.skip(n + 1);
            lemma_lines_have_no_newline(rest);
            assert forall|i: int| 0 <= i < lines(s).len() implies !(#[trigger] lines(
                s,
            )[i]).contains('\n') by {
                if i == 0 {
                    let l = s.take(n);
                    assert forall|j: int| 0 <= j < chomp(l).len() implies chomp(l)[j] != '\n' by {
                        assert(chomp(l)[j] == s[j]);
                    }
                } else {
                    assert(lines(s)[i] == lines(rest)[i - 1]);
                }
            }
        }
    }
}

/// The texts `parts`, each without one trailing carriage return.
pub open spec fn chomped(parts: Seq<Seq<char>>) -> Seq<Seq<char>> {
    Seq::new(parts.len(), |i: int| chomp(parts[i]))
}

/// Lines written one after another, each with its newline, are read back one by one.
pub proof fn lemma_lines_of_joined(parts: Seq<Seq<char>>)
    requires
        parts.len() > 0,
        forall|i: int| 0 <= i < parts.len() ==> !(#[trigger] parts[i]).contains('\n'),
    ensures
        lines(join(parts, seq!['\n']).push('\n')) == chomped(parts),
    decreases parts.len(),
{
    let nl = seq!['\n'];
    let first = parts[0];
    if parts.len() == 1 {
        lemma_lines_first(first, seq![]);
        assert(first.push('\n') =~= first + nl + seq![]);
        assert(seq![chomp(first)] + lines(seq![]) =~= chomped(parts));
    } else {
        let rest = parts.drop_first();
        assert(parts =~= seq![first] + rest);
        assert forall|i: int| 0 <= i < rest.len() implies !(#[trigger] rest[i]).contains('\n') by {
            assert(rest[i] == parts[i + 1]);
        }
        lemma_join_first(first, rest, nl);
        lemma_lines_of_joined(rest);
        lemma_lines_first(first, join(rest, nl).push('\n'));
        assert(join(parts, nl).push('\n') =~= first + nl + join(rest, nl).push('\n'));
        assert(seq![chomp(first)] + chomped(rest) =~= chomped(parts));
    }
}

/// A text that is one word has that word.
pub proof fn lemma_words_of_word(w: Seq<char>)
    requires
        is_word(w),
    ensures
        words(w) == seq![w],
{
    lemma_word_len_is(w, w.len() as int);
    assert(w.take(w.len() as int) =~= w);
    assert(w.skip(w.len() as int).len() == 0);
    assert(seq![w] + words(w.skip(w.len() as int)) =~= seq![w]);
}

/// A word, a space and a text: that word, then the text's words.
pub proof fn lemma_words_first(w: Seq<char>, c: char, rest: Seq<char>)
    requires
        is_word(w),
        is_space(c),
    ensures
        words(w + seq![c] + rest) == seq![w] + words(rest),
{
    let s = w + seq![c] + rest;
    let n = w.len() as int;
    assert(s[0] == w[0]);
    assert forall|i: int| 0 <= i < n implies !is_space(#[trigger] s[i]) by {
        assert(s[i] == w[i]);
    }
    assert(s[n] == c);
    lemma_word_len_is(s, n);
    assert(s.take(n) =~= w);
    let r = s.skip(n);
    assert(r[0] == c);
    assert(r.drop_first() =~= rest);
    assert(words(r) == words(rest));
}

/// Words joined by spaces are read back one by one.
pub proof fn lemma_words_of_joined(ws: Seq<Seq<char>>)
    requires
        forall|i: int| 0 <= i < ws.len() ==> is_word(#[trigger] ws[i]),
    ensures
        words(join(ws, seq![' '])) == ws,
    decreases ws.len(),
{
    if ws.len() == 0 {
        assert(words(join(ws, seq![' '])) =~= ws);
    } else if ws.len() == 1 {
        lemma_words_of_word(ws[0]);
        assert(seq![ws[0]] =~= ws);
    } else {
        let rest = ws.drop_first();
        assert(ws =~= seq![ws[0]] + rest);
        assert forall|i: int| 0 <= i < rest.len() implies is_word(#[trigger] rest[i]) by {
            assert(rest[i] == ws[i + 1]);
        }
        lemma_join_first(ws[0], rest, seq![' ']);
        lemma_words_of_joined(rest);
        lemma_words_first(ws[0], ' ', join(rest, seq![' ']));
    }
}

/// The words of a text are words.
pub proof fn lemma_words_are_words(s: Seq<char>)
    ensures
        forall|i: int| 0 <= i < words(s).len() ==> is_word(#[trigger] words(s)[i]),
    decreases s.len(),
{
    if s.len() == 0 {
    } else if is_space(s[0]) {
        lemma_words_are_words(s.drop_first());
        assert(words(s) == words(s.drop_first()));
    } else {
        lemma_word_len(s);
        let n = word_len(s) as int;
        lemma_words_are_words(s.skip(n));
        assert forall|i: int| 0 <= i < words(s).len() implies is_word(#[trigger] words(s)[i]) by {
            if i == 0 {
                assert forall|j: int| 0 <= j < n implies !is_space(#[trigger] s.take(n)[j]) by {
                    assert(s.take(n)[j] == s[j]);
                }
                assert(words(s)[0] == s.take(n));
            } else {
                assert(words(s)[i] == words(s.skip(n))[i - 1]);
            }
        }
    }
}

/// Texts without a newline hold none once they are joined with spaces.
pub proof fn lemma_joined_have_no_newline(parts: Seq<Seq<char>>)
    requires
        forall|i: int| 0 <= i < parts.len() ==> !(#[trigger] parts[i]).contains('\n'),
    ensures
        !join(parts, seq![' ']).contains('\n'),
    decreases parts.len(),
{
    let s = join(parts, seq![' ']);
    if parts.len() > 1 {
        let init = parts.drop_last();
        let w = parts.last();
        assert forall|i: int| 0 <= i < init.len() implies !(#[trigger] init[i]).contains('\n') by {
            assert(init[i] == parts[i]);
        }
        lemma_joined_have_no_newline(init);
        let h = join(init, seq![' ']);
        assert(!parts[parts.len() - 1].contains('\n'));
        assert forall|i: int| 0 <= i < s.len() implies s[i] != '\n' by {
            if i < h.len() {
                assert(s[i] == h[i]);
                assert(h.contains(h[i]));
            } else if i > h.len() {
                assert(s[i] == w[i - h.len() - 1]);
                assert(w.contains(w[i - h.len() - 1]));
            }
        }
    } else if parts.len() == 1 {
        assert(!parts[0].contains('\n'));
    }
}

/// Words hold no newline.
pub proof fn lemma_words_have_no_newline(ws: Seq<Seq<char>>)
    requires
        forall|i: int| 0 <= i < ws.len() ==> is_word(#[trigger] ws[i]),
    ensures
        forall|i: int| 0 <= i < ws.len() ==> !(#[trigger] ws[i]).contains('\n'),
{
    assert forall|i: int| 0 <= i < ws.len() implies !(#[trigger] ws[i]).contains('\n') by {
        assert(is_word(ws[i]));
        if ws[i].contains('\n') {
            let j = ws[i].index_of('\n');
            assert(!is_space(ws[i][j]));
        }
    }
}

/// Without the white space at its end a text is a beginning of itself that holds everything
/// else.
pub proof fn lemma_trim_end_begins(s: Seq<char>)
    ensures
        trim_end(s).len() <= s.len(),
        trim_end(s) == s.take(trim_end(s).len() as int),
        forall|i: int| 0 <= i < s.len() && !is_space(#[trigger] s[i]) ==> i < trim_end(s).len(),
    decreases s.len(),
{
    if s.len() > 0 && is_space(s.last()) {
        let init = s.drop_last();
        lemma_trim_end_begins(init);
        assert(trim_end(s) =~= s.take(trim_end(s).len() as int));
        assert forall|i: int| 0 <= i < s.len() && !is_space(#[trigger] s[i]) implies i < trim_end(
            s,
        ).len() by {
            assert(s[i] == init[i]);
        }
    } else {
        assert(trim_end(s) =~= s.take(s.len() as int));
    }
}

/// The words of a text are those of the trimmed text.
pub proof fn lemma_words_of_trimmed(s: Seq<char>)
    ensures
        words(trim(s)) == words(s),
{
    lemma_words_trim_start(s);
    lemma_words_trim_end(trim_start(s));
}

proof fn lemma_words_trim_start(s: Seq<char>)
    ensures
        words(trim_start(s)) == words(s),
    decreases s.len(),
{
    if s.len() > 0 && is_space(s[0]) {
        lemma_words_trim_start(s.drop_first());
    }
}

proof fn lemma_words_trim_end(s: Seq<char>)
    ensures
        words(trim_end(s)) == words(s),
    decreases s.len(),
{
    if s.len() > 0 && is_space(s.last()) {
        lemma_words_trim_end(s.drop_last());
        assert(s.drop_last().push(s.last()) =~= s);
        lemma_words_push_space(s.drop_last(), s.last());
    }
}

/// Nothing is trimmed off a text that begins and ends without white space.
pub proof fn lemma_trim_solid(s: Seq<char>)
    requires
        s.len() > 0,
        !is_space(s[0]),
        !is_space(s.last()),
    ensures
        trim(s) == s,
{
}

} // verus!
