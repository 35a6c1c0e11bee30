//! What is left of a `resolv.conf` once our entries are out of it.

use vstd::prelude::*;

use crate::addr::{no_text_names_both_families, read_v4, read_v6, Ipv4Addr};
use crate::dns::resolv_conf::{
    host_only, kept_lines, marker_line, our_server, search_words, server_text, stripped,
    without_ours, MARKER,
};
use crate::dns::resolv_laws::{
    lemma_host_only, lemma_kept_add, lemma_kept_lines_all, lemma_line_chomp,
    lemma_marker_line, lemma_search_line, lemma_stripped_lines, stripping_leaves_nothing_of_ours,
};
use crate::dns::search::{dot_domain, ours};
use crate::dns::{magic_v6, DNS_DOMAIN};
use crate::text::{chomp, ends_with, join, lines, starts_with, trim, words};
use crate::text_lemmas::{
    is_word, lemma_chomp, lemma_words_are_words,
    lemma_words_first, lemma_words_of_joined, lemma_words_of_trimmed,
};

verus! {

/// Whether a line says `nameserver` and then the address of a resolver that this daemon hands
/// out: `200::53` now, `100.100.100.53` in earlier releases.
pub open spec fn hands_out_our_resolver(l: Seq<char>) -> bool {
    &&& words(l).len() >= 2
    &&& words(l)[0] == "nameserver"@
    &&& read_v4(words(l)[1]) == Some(Ipv4Addr { a: 100, b: 100, c: 100, d: 53 }) || read_v6(
        words(l)[1],
    ) == Some(seq![0x200u16, 0, 0, 0, 0, 0, 0, 0x53])
}

/// Whether a line is a `search` line.
pub open spec fn is_search_line(l: Seq<char>) -> bool {
    words(l).len() > 0 && words(l)[0] == "search"@
}

/// Whether a domain is `ray` or lies under it.
pub open spec fn lies_under_ray(d: Seq<char>) -> bool {
    d == "ray"@ || ends_with(d, ".ray"@)
}

/// Whether nothing on a line is this daemon's: no marker, none of its resolvers, and no search
/// domain under `ray`.
pub open spec fn nothing_ours(l: Seq<char>) -> bool {
    &&& !starts_with(trim(l), "# Added by rayfish"@)
    &&& !hands_out_our_resolver(l)
    &&& is_search_line(l) ==> forall|j: int|
        1 <= j < words(l).len() ==> !lies_under_ray(#[trigger] words(l)[j])
}

/// Whether `k` is the line `l`, as it is read back: a carriage return at its end belongs to the
/// newline.
pub open spec fn same_line(k: Seq<char>, l: Seq<char>) -> bool {
    k == l || (l.len() > 0 && l.last() == '\r' && k == l.drop_last())
}

proof fn lemma_ours(d: Seq<char>)
    ensures
        ours(d) == lies_under_ray(d),
{
    reveal_strlit("ray");
    reveal_strlit(".ray");
    assert(dot_domain() =~= ".ray"@);
    assert(DNS_DOMAIN@ == "ray"@);
}

proof fn lemma_our_server(l: Seq<char>)
    ensures
        our_server(l) == hands_out_our_resolver(l),
{
    if server_text(l) is Some {
        no_text_names_both_families(server_text(l)->0);
    }
    assert(magic_v6() =~= seq![0x200u16, 0, 0, 0, 0, 0, 0, 0x53]);
}

proof fn lemma_host_only_none(ds: Seq<Seq<char>>)
    requires
        forall|j: int| 0 <= j < ds.len() ==> !lies_under_ray(#[trigger] ds[j]),
    ensures
        host_only(ds) == ds,
    decreases ds.len(),
{
    if ds.len() > 0 {
        let init = ds.drop_last();
        assert forall|j: int| 0 <= j < init.len() implies !lies_under_ray(#[trigger] init[j]) by {
            assert(init[j] == ds[j]);
        }
        lemma_host_only_none(init);
        lemma_ours(ds.last());
        assert(!lies_under_ray(ds[ds.len() - 1]));
        assert(ds =~= init.push(ds.last()));
    } else {
        assert(host_only(ds) =~= ds);
    }
}

proof fn lemma_nothing_ours(l: Seq<char>)
    requires
        nothing_ours(l),
    ensures
        without_ours(l) == Some(l),
{
    lemma_our_server(l);
    assert(MARKER@ == "# Added by rayfish"@);
    let ds = search_words(l);
    assert forall|j: int| 0 <= j < ds.len() implies !lies_under_ray(#[trigger] ds[j]) by {
        assert(ds[j] == words(l)[j + 1]);
    }
    lemma_host_only_none(ds);
}

/// Where a line that is kept stands among those that are kept: behind those kept before it.
proof fn lemma_kept_at(ls: Seq<Seq<char>>, i: int)
    requires
        0 <= i < ls.len(),
        without_ours(ls[i]) is Some,
    ensures
        kept_lines(ls.take(i)).len() < kept_lines(ls).len(),
        kept_lines(ls)[kept_lines(ls.take(i)).len() as int] == without_ours(ls[i])->0,
{
    let a = ls.take(i);
    let one = seq![ls[i]];
    let b = ls.skip(i + 1);
    lemma_kept_add(a + one, b);
    lemma_kept_add(a, one);
    assert(one.drop_last() =~= seq![]);
    assert(kept_lines(one.drop_last()) =~= seq![]);
    assert(kept_lines(one) =~= seq![without_ours(ls[i])->0]);
    assert(ls =~= a + one + b);
}

proof fn lemma_kept_before(ls: Seq<Seq<char>>, i: int, k: int)
    requires
        0 <= i < k <= ls.len(),
        without_ours(ls[i]) is Some,
    ensures
        kept_lines(ls.take(i)).len() < kept_lines(ls.take(k)).len(),
{
    assert(ls.take(k)[i] == ls[i]);
    assert(ls.take(k).take(i) =~= ls.take(i));
    lemma_kept_at(ls.take(k), i);
}

/// What is left of a line stands in the stripped file, at the place that the lines kept before
/// it leave it.
proof fn lemma_stands(c: Seq<char>, i: int)
    requires
        0 <= i < lines(c).len(),
        without_ours(lines(c)[i]) is Some,
    ensures
        ({
            let at = kept_lines(lines(c).take(i)).len() as int;
            &&& 0 <= at < lines(stripped(c)).len()
            &&& same_line(lines(stripped(c))[at], without_ours(lines(c)[i])->0)
        }),
{
    let ls = lines(c);
    lemma_kept_at(ls, i);
    if kept_lines(ls) != ls {
        lemma_stripped_lines(c);
    }
}

/// Every line with nothing of ours on it, an IPv6 nameserver of the host's or of another VPN
/// among them, stands in the stripped file as it stood, and any two of them in their order.
pub proof fn other_lines_stay_in_place(c: Seq<char>, i: int, k: int)
    requires
        0 <= i < k < lines(c).len(),
        nothing_ours(lines(c)[i]),
        nothing_ours(lines(c)[k]),
    ensures
        exists|a: int, b: int|
            0 <= a < b < lines(stripped(c)).len() && same_line(
                #[trigger] lines(stripped(c))[a],
                lines(c)[i],
            ) && same_line(#[trigger] lines(stripped(c))[b], lines(c)[k]),
{
    let ls = lines(c);
    lemma_nothing_ours(ls[i]);
    lemma_nothing_ours(ls[k]);
    lemma_stands(c, i);
    lemma_stands(c, k);
    lemma_kept_before(ls, i, k);
    let a = kept_lines(ls.take(i)).len() as int;
    let b = kept_lines(ls.take(k)).len() as int;
    assert(same_line(lines(stripped(c))[a], ls[i]));
    assert(same_line(lines(stripped(c))[b], ls[k]));
}

/// A nameserver line that hands out another server than ours, of either family, stands in the
/// stripped file as it stood.
pub proof fn other_nameservers_stay(c: Seq<char>, i: int, a: Seq<char>)
    requires
        0 <= i < lines(c).len(),
        words(lines(c)[i]) == seq!["nameserver"@, a],
        read_v4(a) != Some(Ipv4Addr { a: 100, b: 100, c: 100, d: 53 }),
        read_v6(a) != Some(seq![0x200u16, 0, 0, 0, 0, 0, 0, 0x53]),
    ensures
        exists|j: int|
            0 <= j < lines(stripped(c)).len() && same_line(
                #[trigger] lines(stripped(c))[j],
                lines(c)[i],
            ),
{
    let l = lines(c)[i];
    reveal_strlit("nameserver");
    reveal_strlit("search");
    assert("nameserver"@.len() == 10 && "search"@.len() == 6);
    if marker_line(l) {
        lemma_marker_line(l);
    }
    assert(MARKER@ == "# Added by rayfish"@);
    assert(nothing_ours(l));
    lemma_nothing_ours(l);
    lemma_stands(c, i);
}

/// A file with nothing of ours in it is left exactly as it was found, and so is one that was
/// stripped before.
pub proof fn a_file_of_others_is_left_as_found(c: Seq<char>)
    requires
        forall|i: int| 0 <= i < lines(c).len() ==> nothing_ours(#[trigger] lines(c)[i]),
    ensures
        stripped(c) == c,
{
    let ls = lines(c);
    assert forall|i: int| 0 <= i < ls.len() implies without_ours(#[trigger] ls[i]) == Some(ls[i]) by {
        assert(nothing_ours(ls[i]));
        lemma_nothing_ours(ls[i]);
    }
    lemma_kept_lines_all(ls);
}

/// Nothing of ours is left in a stripped file: no marker, neither of our resolvers, and no
/// search domain under `ray`.
pub proof fn nothing_of_ours_is_left(c: Seq<char>)
    ensures
        forall|i: int|
            0 <= i < lines(stripped(c)).len() ==> nothing_ours(#[trigger] lines(stripped(c))[i]),
{
    stripping_leaves_nothing_of_ours(c);
    let r = lines(stripped(c));
    assert forall|i: int| 0 <= i < r.len() implies nothing_ours(#[trigger] r[i]) by {
        let l = r[i];
        lemma_our_server(l);
        assert(!our_server(l));
        assert(!marker_line(l));
        assert(MARKER@ == "# Added by rayfish"@);
        if is_search_line(l) {
            assert forall|j: int| 1 <= j < words(l).len() implies !lies_under_ray(
                #[trigger] words(l)[j],
            ) by {
                let d = words(l)[j];
                assert(search_words(l)[j - 1] == d);
                assert(search_words(l).contains(d));
                lemma_ours(d);
            }
        }
    }
}

/// The domains that are not under `ray`, in their order.
pub open spec fn outside_ray(ds: Seq<Seq<char>>) -> Seq<Seq<char>> {
    ds.filter(|d: Seq<char>| d != "ray"@ && !ends_with(d, ".ray"@))
}

proof fn lemma_host_only_is_outside(ds: Seq<Seq<char>>)
    ensures
        host_only(ds) == outside_ray(ds),
    decreases ds.len(),
{
    reveal(Seq::filter);
    if ds.len() > 0 {
        lemma_host_only_is_outside(ds.drop_last());
        lemma_ours(ds.last());
    }
}

/// A `search` line keeps every domain that is not under `ray`, in order, and no other; one that
/// named no domain at all stays too.
pub proof fn search_lines_keep_the_hosts_domains(c: Seq<char>, i: int)
    requires
        0 <= i < lines(c).len(),
        is_search_line(lines(c)[i]),
        outside_ray(words(lines(c)[i]).skip(1)).len() > 0 || words(lines(c)[i]).len() == 1,
    ensures
        exists|j: int|
            0 <= j < lines(stripped(c)).len() && words(#[trigger] lines(stripped(c))[j]) == seq![
                "search"@,
            ] + outside_ray(words(lines(c)[i]).skip(1)),
{
    let l = lines(c)[i];
    let ds = search_words(l);
    reveal_strlit("nameserver");
    reveal_strlit("search");
    reveal_strlit("search ");
    assert("nameserver"@.len() == 10 && "search"@.len() == 6);
    assert(words(l).skip(1) =~= ds);
    lemma_host_only_is_outside(ds);
    lemma_host_only(ds);
    let kept = host_only(ds);
    if marker_line(l) {
        lemma_marker_is_no_search(l);
    }
    assert(server_text(l) is None);
    assert(without_ours(l) is Some);
    let k = without_ours(l)->0;
    if kept.len() == ds.len() {
        assert(words(k) =~= seq!["search"@] + kept);
    } else {
        lemma_words_are_words(l);
        assert forall|m: int| 0 <= m < kept.len() implies is_word(#[trigger] kept[m]) by {
            let n = choose|n: int| 0 <= n < ds.len() && ds[n] == kept[m];
            assert(ds[n] == words(l)[n + 1]);
        }
        lemma_words_of_joined(kept);
        let tail = join(kept, seq![' ']);
        assert(k =~= "search"@ + seq![' '] + tail);
        assert(is_word("search"@));
        lemma_words_first("search"@, ' ', tail);
    }
    lemma_stands(c, i);
    let at = kept_lines(lines(c).take(i)).len() as int;
    lemma_chomp(k);
    assert(words(lines(stripped(c))[at]) == words(k));
}

/// A marker's first word is a single sign, so it is no `search` line.
proof fn lemma_marker_is_no_search(l: Seq<char>)
    requires
        marker_line(l),
    ensures
        !is_search_line(l),
{
    reveal_strlit("# Added by rayfish");
    reveal_strlit("search");
    let t = trim(l);
    assert(MARKER@.len() == 18);
    assert(t.take(18)[0] == '#' && t.take(18)[1] == ' ');
    assert(t[0] == '#' && t[1] == ' ');
    let w = seq!['#'];
    assert(t =~= w + seq![' '] + t.skip(2));
    lemma_words_first(w, ' ', t.skip(2));
    lemma_words_of_trimmed(l);
    assert(words(l)[0] == w);
    assert(w.len() == 1 && "search"@.len() == 6);
}

/// No line is made up: each line of a stripped file is a line of the file, or what is left of
/// one of its `search` lines, or the one empty line of a file that held nothing else.
pub proof fn no_line_is_made_up(c: Seq<char>, j: int)
    requires
        0 <= j < lines(stripped(c)).len(),
    ensures
        lines(stripped(c))[j].len() == 0 || exists|i: int|
            0 <= i < lines(c).len() && (same_line(lines(stripped(c))[j], #[trigger] lines(c)[i])
                || (is_search_line(lines(c)[i]) && is_search_line(lines(stripped(c))[j]))),
{
    let ls = lines(c);
    let r = lines(stripped(c));
    if kept_lines(ls) == ls {
        assert(same_line(r[j], ls[j]));
    } else {
        lemma_stripped_lines(c);
        let k = kept_lines(ls);
        if k.len() > 0 {
            let i = lemma_kept_from(ls, j);
            let l = ls[i];
            assert(k[j] == without_ours(l)->0);
            if k[j] != l {
                let ds = search_words(l);
                let kept = host_only(ds);
                lemma_host_only(ds);
                lemma_words_are_words(l);
                assert forall|m: int| 0 <= m < kept.len() implies is_word(#[trigger] kept[m]) by {
                    let n = choose|n: int| 0 <= n < ds.len() && ds[n] == kept[m];
                    assert(ds[n] == words(l)[n + 1]);
                }
                lemma_search_line(kept);
                assert(is_search_line(l));
                assert(search_words(k[j]).len() > 0);
                assert(r[j] == chomp(k[j]));
                lemma_line_chomp(k[j]);
                assert(is_search_line(r[j]));
            } else {
                assert(same_line(r[j], ls[i]));
            }
        }
    }
}

/// The line that a kept line is left of.
proof fn lemma_kept_from(ls: Seq<Seq<char>>, j: int) -> (i: int)
    requires
        0 <= j < kept_lines(ls).len(),
    ensures
        0 <= i < ls.len(),
        without_ours(ls[i]) == Some(kept_lines(ls)[j]),
    decreases ls.len(),
{
    let init = ls.drop_last();
    if j < kept_lines(init).len() {
        let i = lemma_kept_from(init, j);
        assert(ls[i] == init[i]);
        i
    } else {
        ls.len() - 1
    }
}

} // verus!
