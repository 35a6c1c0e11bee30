//! What holds of the `resolv.conf` functions together.

use vstd::prelude::*;

use crate::addr::{
    ip_text, ip_text_is_a_word, ip_text_names_its_address, is_ip, v4_text,
    v4_text_names_exactly_its_address, v6_text, v6_text_is_a_word, v6_text_names_its_address,
    IpAddr, Ipv4Addr,
};
use crate::dns::resolv_conf::{
    first_server, host_only, kept_lines, marked, marker_line, our_server, reassert_for, rendered,
    search_entry, search_words, server_entries, server_entry, server_text, stripped, upstream,
    upstreams, without_ours, Reassert, HEADER, MARKER,
};
use crate::dns::search::ours;
use crate::dns::{magic_v4, magic_v6};
use crate::text::{chomp, is_space, join, lines, trim, words};
use crate::text_lemmas::{
    chomped, is_word, lemma_chomp, lemma_joined_have_no_newline, lemma_lines_first,
    lemma_lines_have_no_newline, lemma_lines_of_joined, lemma_trim_solid, lemma_words_are_words,
    lemma_words_first, lemma_words_have_no_newline, lemma_words_of_joined, lemma_words_of_trimmed,
    lemma_words_of_word, lemma_words_push_space,
};

verus! {

/// A carriage return at the end makes no difference to what a line says.
pub proof fn lemma_line_chomp(l: Seq<char>)
    ensures
        server_text(chomp(l)) == server_text(l),
        upstream(chomp(l)) == upstream(l),
        our_server(chomp(l)) == our_server(l),
        marker_line(chomp(l)) == marker_line(l),
        search_words(chomp(l)) == search_words(l),
{
    lemma_chomp(l);
}

/// A marker line names no server and no search domain.
pub proof fn lemma_marker_line(l: Seq<char>)
    requires
        marker_line(l),
    ensures
        server_text(l) is None,
        search_words(l).len() == 0,
{
    reveal_strlit("# Added by rayfish");
    reveal_strlit("nameserver");
    reveal_strlit("search");
    let t = trim(l);
    let m = MARKER@;
    assert(m.len() == 18);
    assert(t.take(18)[0] == '#' && t.take(18)[1] == ' ');
    assert(t[0] == '#' && t[1] == ' ');
    let w = seq!['#'];
    assert(t =~= w + seq![' '] + t.skip(2));
    lemma_words_first(w, ' ', t.skip(2));
    lemma_words_of_trimmed(l);
    assert(words(l)[0] == w);
    assert(w.len() == 1 && "nameserver"@.len() == 10 && "search"@.len() == 6);
}

/// A `search` line rewritten with the words `ws` names those domains and no server, and is
/// no marker.
pub proof fn lemma_search_line(ws: Seq<Seq<char>>)
    requires
        ws.len() > 0,
        forall|i: int| 0 <= i < ws.len() ==> is_word(#[trigger] ws[i]),
    ensures
        ({
            let l = "search "@ + join(ws, seq![' ']);
            &&& server_text(l) is None
            &&& search_words(l) == ws
            &&& !marker_line(l)
            &&& !l.contains('\n')
            &&& l.len() > 0
            &&& l.last() != '\r'
            &&& chomp(l) == l
        }),
{
    reveal_strlit("# Added by rayfish");
    reveal_strlit("nameserver");
    reveal_strlit("search");
    reveal_strlit("search ");
    let tail = join(ws, seq![' ']);
    let l = "search "@ + tail;
    let k = "search"@;
    assert(l =~= k + seq![' '] + tail);
    assert(is_word(k));
    lemma_words_first(k, ' ', tail);
    lemma_words_of_joined(ws);
    assert(words(l) == seq![k] + ws);
    assert(words(l).drop_first() =~= ws);
    assert(k.len() == 6 && "nameserver"@.len() == 10);
    lemma_words_have_no_newline(ws);
    lemma_joined_have_no_newline(ws);
    assert forall|i: int| 0 <= i < l.len() implies l[i] != '\n' by {
        if i >= 7 {
            assert(l[i] == tail[i - 7]);
        }
    }
    lemma_joined_words_end_solid(ws);
    assert(l.last() == tail.last());
    lemma_trim_solid(l);
    assert(l[0] == 's');
    if marker_line(l) {
        assert(l.take(18)[0] == '#');
    }
}

/// Joined words end in a character of the last word.
pub proof fn lemma_joined_words_end_solid(ws: Seq<Seq<char>>)
    requires
        ws.len() > 0,
        forall|i: int| 0 <= i < ws.len() ==> is_word(#[trigger] ws[i]),
    ensures
        join(ws, seq![' ']).len() > 0,
        !is_space(join(ws, seq![' ']).last()),
{
    let w = ws[ws.len() - 1];
    assert(is_word(w));
    assert(!is_space(w[w.len() - 1]));
    assert(join(ws, seq![' ']).last() == w.last());
}

/// The host's domains are among the domains, none of them is ours, and nothing else is
/// left out.
pub proof fn lemma_host_only(ds: Seq<Seq<char>>)
    ensures
        host_only(ds).len() <= ds.len(),
        forall|i: int| 0 <= i < host_only(ds).len() ==> !ours(#[trigger] host_only(ds)[i]),
        forall|i: int|
            0 <= i < host_only(ds).len() ==> ds.contains(#[trigger] host_only(ds)[i]),
        host_only(ds).len() == ds.len() ==> host_only(ds) == ds,
    decreases ds.len(),
{
    if ds.len() > 0 {
        let init = ds.drop_last();
        lemma_host_only(init);
        assert forall|i: int| 0 <= i < host_only(ds).len() implies ds.contains(
            #[trigger] host_only(ds)[i],
        ) by {
            if i < host_only(init).len() {
                let x = host_only(init)[i];
                assert(host_only(ds)[i] == x);
                let j = choose|j: int| 0 <= j < init.len() && init[j] == x;
                assert(ds[j] == x);
            } else {
                assert(ds[ds.len() - 1] == host_only(ds)[i]);
            }
        }
        if host_only(ds).len() == ds.len() {
            assert(!ours(ds.last()));
            assert(ds =~= init.push(ds.last()));
        }
    } else {
        assert(host_only(ds) =~= ds);
    }
}

/// Domains none of which is ours are the host's.
proof fn lemma_host_only_all(ds: Seq<Seq<char>>)
    requires
        forall|i: int| 0 <= i < ds.len() ==> !ours(#[trigger] ds[i]),
    ensures
        host_only(ds) == ds,
    decreases ds.len(),
{
    if ds.len() > 0 {
        let init = ds.drop_last();
        assert forall|i: int| 0 <= i < init.len() implies !ours(#[trigger] init[i]) by {
            assert(init[i] == ds[i]);
        }
        lemma_host_only_all(init);
        assert(!ours(ds[ds.len() - 1]));
        assert(ds =~= init.push(ds.last()));
    } else {
        assert(host_only(ds) =~= ds);
    }
}

/// What remains of a line: it names the same upstream, it is no marker and not our server,
/// its domains are the host's, and it is still one line.
proof fn lemma_kept_line(l: Seq<char>)
    requires
        !l.contains('\n'),
    ensures
        without_ours(l) is None ==> upstream(l) is None,
        without_ours(l) is Some ==> ({
            let k = without_ours(l)->0;
            &&& upstream(k) == upstream(l)
            &&& !marker_line(k)
            &&& !our_server(k)
            &&& host_only(search_words(k)) == search_words(k)
            &&& !k.contains('\n')
        }),
{
    let ds = search_words(l);
    let kept = host_only(ds);
    lemma_host_only(ds);
    if marker_line(l) {
        lemma_marker_line(l);
    } else if our_server(l) {
    } else if kept.len() == ds.len() {
    } else {
        // A line with search domains names no server.
        reveal_strlit("nameserver");
        reveal_strlit("search");
        assert(words(l)[0] == "search"@);
        assert("search"@.len() == 6 && "nameserver"@.len() == 10);
        assert(server_text(l) is None);
        if kept.len() > 0 {
            lemma_words_are_words(l);
            assert forall|i: int| 0 <= i < kept.len() implies is_word(#[trigger] kept[i]) by {
                let j = choose|j: int| 0 <= j < ds.len() && ds[j] == kept[i];
                assert(ds[j] == words(l)[j + 1]);
            }
            lemma_search_line(kept);
            lemma_host_only_all(kept);
        }
    }
}

/// What remains of the lines, taken together.
pub proof fn lemma_kept_lines(ls: Seq<Seq<char>>)
    requires
        forall|i: int| 0 <= i < ls.len() ==> !(#[trigger] ls[i]).contains('\n'),
    ensures
        upstreams(kept_lines(ls)) == upstreams(ls),
        forall|i: int|
            0 <= i < kept_lines(ls).len() ==> ({
                let k = #[trigger] kept_lines(ls)[i];
                &&& !marker_line(k)
                &&& !our_server(k)
                &&& host_only(search_words(k)) == search_words(k)
                &&& !k.contains('\n')
            }),
    decreases ls.len(),
{
    if ls.len() > 0 {
        let init = ls.drop_last();
        assert forall|i: int| 0 <= i < init.len() implies !(#[trigger] init[i]).contains('\n') by {
            assert(init[i] == ls[i]);
        }
        lemma_kept_lines(init);
        assert(!ls[ls.len() - 1].contains('\n'));
        lemma_kept_line(ls.last());
        match without_ours(ls.last()) {
            Some(k) => {
                assert(kept_lines(ls) == kept_lines(init).push(k));
                assert(kept_lines(ls).drop_last() =~= kept_lines(init));
            },
            None => {},
        }
    }
}

proof fn lemma_upstreams_chomped(ls: Seq<Seq<char>>)
    ensures
        upstreams(chomped(ls)) == upstreams(ls),
    decreases ls.len(),
{
    if ls.len() > 0 {
        lemma_upstreams_chomped(ls.drop_last());
        assert(chomped(ls).drop_last() =~= chomped(ls.drop_last()));
        lemma_line_chomp(ls.last());
    }
}

/// Lines of which nothing is left out and nothing changed are kept as they are.
pub proof fn lemma_kept_lines_all(ls: Seq<Seq<char>>)
    requires
        forall|i: int| 0 <= i < ls.len() ==> without_ours(#[trigger] ls[i]) == Some(ls[i]),
    ensures
        kept_lines(ls) == ls,
    decreases ls.len(),
{
    if ls.len() > 0 {
        let init = ls.drop_last();
        assert forall|i: int| 0 <= i < init.len() implies without_ours(#[trigger] init[i]) == Some(
            init[i],
        ) by {
            assert(init[i] == ls[i]);
        }
        lemma_kept_lines_all(init);
        assert(without_ours(ls[ls.len() - 1]) == Some(ls[ls.len() - 1]));
        assert(ls =~= init.push(ls.last()));
    } else {
        assert(kept_lines(ls) =~= ls);
    }
}

/// The lines of a stripped file, where something was stripped off it.
pub proof fn lemma_stripped_lines(c: Seq<char>)
    requires
        kept_lines(lines(c)) != lines(c),
    ensures
        ({
            let k = kept_lines(lines(c));
            lines(stripped(c)) == (if k.len() > 0 {
                chomped(k)
            } else {
                seq![seq![]]
            })
        }),
{
    let k = kept_lines(lines(c));
    lemma_lines_have_no_newline(c);
    lemma_kept_lines(lines(c));
    if k.len() > 0 {
        lemma_lines_of_joined(k);
    } else {
        let none = Seq::<char>::empty();
        lemma_lines_first(none, none);
        assert(stripped(c) =~= none + seq!['\n'] + none);
        assert(seq![chomp(none)] + lines(none) =~= seq![none]);
    }
}

/// Taking our entries out leaves every other nameserver in its place.
pub proof fn stripping_keeps_the_upstreams(c: Seq<char>)
    ensures
        upstreams(lines(stripped(c))) == upstreams(lines(c)),
{
    lemma_lines_have_no_newline(c);
    lemma_kept_lines(lines(c));
    if kept_lines(lines(c)) != lines(c) {
        lemma_stripped_lines(c);
        let k = kept_lines(lines(c));
        if k.len() > 0 {
            lemma_upstreams_chomped(k);
        } else {
            let blank = seq![Seq::<char>::empty()];
            assert(words(blank.last()).len() == 0);
            assert(blank.drop_last() =~= seq![]);
            assert(upstreams(blank.drop_last()) =~= seq![]);
            assert(upstreams(blank) =~= seq![]);
            assert(upstreams(k) =~= seq![]);
        }
    }
}

/// A stripped file holds nothing of ours: no marker, none of our addresses, none of our
/// search domains.
pub proof fn stripping_leaves_nothing_of_ours(c: Seq<char>)
    ensures
        !marked(lines(stripped(c))),
        forall|i: int|
            0 <= i < lines(stripped(c)).len() ==> !our_server(#[trigger] lines(stripped(c))[i]),
        forall|i: int, d: Seq<char>|
            0 <= i < lines(stripped(c)).len() && search_words(
                #[trigger] lines(stripped(c))[i],
            ).contains(d) ==> !(#[trigger] ours(d)),
{
    let ls = lines(stripped(c));
    assert forall|i: int| 0 <= i < ls.len() implies without_ours(#[trigger] ls[i]) == Some(ls[i])
        && !marker_line(ls[i]) && !our_server(ls[i]) by {
        lemma_stripped_line(c, i);
    }
    assert forall|i: int, d: Seq<char>|
        0 <= i < ls.len() && search_words(#[trigger] ls[i]).contains(d) implies !(#[trigger] ours(
        d,
    )) by {
        lemma_stripped_line(c, i);
        let ds = search_words(ls[i]);
        lemma_host_only(ds);
        let j = choose|j: int| 0 <= j < ds.len() && ds[j] == d;
        assert(!ours(host_only(ds)[j]));
    }
}

proof fn lemma_stripped_line(c: Seq<char>, i: int)
    requires
        0 <= i < lines(stripped(c)).len(),
    ensures
        ({
            let l = lines(stripped(c))[i];
            &&& without_ours(l) == Some(l)
            &&& !marker_line(l)
            &&& !our_server(l)
            &&& host_only(search_words(l)) == search_words(l)
        }),
{
    let k = kept_lines(lines(c));
    let l = lines(stripped(c))[i];
    lemma_lines_have_no_newline(c);
    lemma_kept_lines(lines(c));
    if k == lines(c) {
        assert(l == k[i]);
    } else {
        lemma_stripped_lines(c);
        if k.len() > 0 {
            assert(l == chomp(k[i]));
            lemma_line_chomp(k[i]);
        } else {
            assert(words(l).len() == 0);
            assert(trim(l).len() == 0);
            reveal_strlit("# Added by rayfish");
            assert(host_only(search_words(l)) =~= search_words(l));
        }
    }
}

/// Taking our entries out a second time changes nothing.
pub proof fn stripping_twice_is_stripping_once(c: Seq<char>)
    ensures
        stripped(stripped(c)) == stripped(c),
{
    let ls = lines(stripped(c));
    assert forall|i: int| 0 <= i < ls.len() implies without_ours(#[trigger] ls[i]) == Some(ls[i]) by {
        lemma_stripped_line(c, i);
    }
    lemma_kept_lines_all(ls);
}

/// A `nameserver` line without its newline.
pub open spec fn server_line(a: Seq<char>) -> Seq<char> {
    "nameserver "@ + a
}

/// A `nameserver` line for each of the addresses.
pub open spec fn server_lines(s: Seq<Ipv4Addr>) -> Seq<Seq<char>> {
    Seq::new(s.len(), |i: int| server_line(v4_text(s[i])))
}

/// The lines of a file of ours.
pub open spec fn rendered_lines(
    resolver: Seq<char>,
    s: Seq<Ipv4Addr>,
    ds: Seq<Seq<char>>,
) -> Seq<Seq<char>> {
    let top = seq![HEADER@, server_line(resolver)] + server_lines(s);
    if ds.len() == 0 {
        top
    } else {
        top.push(search_line(ds))
    }
}

/// The `search` line of a file of ours, as it is read: a carriage return at its end belongs to
/// the newline.
pub open spec fn search_line(ds: Seq<Seq<char>>) -> Seq<char> {
    chomp("search "@ + join(ds, seq![' ']))
}

/// The `search` line of a file of ours begins with its keyword, holds the words of the
/// domains, and names no server, whatever the domains are.
pub proof fn lemma_any_search_line(ds: Seq<Seq<char>>)
    ensures
        search_line(ds).len() >= 7,
        search_line(ds).take(7) == "search "@,
        words(search_line(ds).skip(7)) == words(join(ds, seq![' '])),
        server_text(search_line(ds)) is None,
{
    reveal_strlit("nameserver");
    reveal_strlit("search");
    reveal_strlit("search ");
    let tail = join(ds, seq![' ']);
    let whole = "search "@ + tail;
    let l = search_line(ds);
    let rest = l.skip(7);
    assert(whole.len() == 7 + tail.len());
    if tail.len() == 0 {
        assert(whole.last() == ' ');
        assert(rest =~= tail);
    } else if tail.last() == '\r' {
        assert(whole.last() == '\r');
        assert(rest =~= tail.drop_last());
        assert(tail =~= rest.push('\r'));
        lemma_words_push_space(rest, '\r');
    } else {
        assert(whole.last() == tail.last());
        assert(rest =~= tail);
    }
    assert(l.take(7) =~= "search "@);
    assert(l =~= "search"@ + seq![' '] + rest);
    assert(is_word("search"@));
    lemma_words_first("search"@, ' ', rest);
    assert(words(l)[0] == "search"@);
    assert("search"@.len() == 6 && "nameserver"@.len() == 10);
}

/// A `nameserver` line names the address that stands on it, and nothing else.
pub proof fn lemma_server_line(a: Seq<char>)
    requires
        is_word(a),
    ensures
        server_text(server_line(a)) == Some(a),
        search_words(server_line(a)).len() == 0,
        !marker_line(server_line(a)),
        !server_line(a).contains('\n'),
        chomp(server_line(a)) == server_line(a),
{
    reveal_strlit("nameserver ");
    reveal_strlit("nameserver");
    reveal_strlit("search");
    reveal_strlit("# Added by rayfish");
    let k = "nameserver"@;
    let l = server_line(a);
    assert(k.len() == 10 && "search"@.len() == 6);
    assert(is_word(k));
    assert(l =~= k + seq![' '] + a);
    lemma_words_first(k, ' ', a);
    lemma_words_of_word(a);
    assert(words(l) =~= seq![k, a]);
    assert(!is_space(a[a.len() - 1]));
    assert(l.last() == a.last());
    assert forall|i: int| 0 <= i < l.len() implies l[i] != '\n' by {
        if i >= 11 {
            assert(l[i] == a[i - 11]);
            assert(!is_space(a[i - 11]));
        }
    }
    lemma_trim_solid(l);
    if marker_line(l) {
        assert(l.take(18)[0] == '#');
    }
}

/// The header is a marker and one line.
pub proof fn lemma_header()
    ensures
        marker_line(HEADER@),
        !HEADER@.contains('\n'),
        chomp(HEADER@) == HEADER@,
{
    reveal_strlit("# Added by rayfish");
    reveal_strlit("# Added by rayfish - do not edit");
    lemma_trim_solid(HEADER@);
    assert(HEADER@.take(18) =~= MARKER@);
    assert forall|i: int| 0 <= i < HEADER@.len() implies HEADER@[i] != '\n' by {}
}

proof fn lemma_lines_server_entries(s: Seq<Ipv4Addr>, rest: Seq<char>)
    ensures
        lines(server_entries(s) + rest) == server_lines(s) + lines(rest),
    decreases s.len(),
{
    if s.len() == 0 {
        assert(server_entries(s) + rest =~= rest);
        assert(server_lines(s) + lines(rest) =~= lines(rest));
    } else {
        let init = s.drop_last();
        let a = v4_text(s.last());
        let l = server_line(a);
        ip_text_is_a_word(IpAddr::V4(s.last()));
        lemma_server_line(a);
        lemma_lines_first(l, rest);
        lemma_lines_server_entries(init, l + seq!['\n'] + rest);
        assert(server_entry(a) =~= l + seq!['\n']);
        assert(server_entries(s) + rest =~= server_entries(init) + (l + seq!['\n'] + rest));
        assert(server_lines(s) =~= server_lines(init).push(l));
        assert(server_lines(init) + (seq![l] + lines(rest)) =~= server_lines(s) + lines(rest));
    }
}

/// The `search` entry is one line, where no domain holds a newline.
proof fn lemma_search_entry_lines(ds: Seq<Seq<char>>)
    requires
        ds.len() > 0,
        forall|i: int| 0 <= i < ds.len() ==> !(#[trigger] ds[i]).contains('\n'),
    ensures
        lines(search_entry(ds)) == seq![search_line(ds)],
{
    let tail = join(ds, seq![' ']);
    let l = "search "@ + tail;
    reveal_strlit("search ");
    lemma_joined_have_no_newline(ds);
    assert forall|i: int| 0 <= i < l.len() implies l[i] != '\n' by {
        if i >= 7 {
            assert(l[i] == tail[i - 7]);
            assert(tail.contains(tail[i - 7]));
        }
    }
    lemma_lines_first(l, seq![]);
    assert(search_entry(ds) =~= l + seq!['\n'] + seq![]);
    assert(lines(seq![]).len() == 0);
    assert(seq![chomp(l)] + lines(seq![]) =~= seq![chomp(l)]);
}

/// The lines of a file of ours, where no search domain holds a newline.
pub proof fn lemma_rendered_lines(resolver: Seq<char>, s: Seq<Ipv4Addr>, ds: Seq<Seq<char>>)
    requires
        is_word(resolver),
        forall|i: int| 0 <= i < ds.len() ==> !(#[trigger] ds[i]).contains('\n'),
    ensures
        lines(rendered(resolver, s, ds)) == rendered_lines(resolver, s, ds),
{
    let tail = search_entry(ds);
    let c = rendered(resolver, s, ds);
    lemma_rendered_top(resolver, s, tail);
    assert(c =~= HEADER@ + seq!['\n'] + server_entry(resolver) + (server_entries(s) + tail));
    let top = seq![HEADER@, server_line(resolver)] + server_lines(s);
    if ds.len() == 0 {
        assert(top + lines(tail) =~= top);
    } else {
        lemma_search_entry_lines(ds);
        assert(top + seq![search_line(ds)] =~= top.push(search_line(ds)));
    }
}

/// The top of a file of ours, whatever follows the servers.
proof fn lemma_rendered_top(resolver: Seq<char>, s: Seq<Ipv4Addr>, tail: Seq<char>)
    requires
        is_word(resolver),
    ensures
        lines(HEADER@ + seq!['\n'] + server_entry(resolver) + (server_entries(s) + tail)) == seq![
            HEADER@,
            server_line(resolver),
        ] + server_lines(s) + lines(tail),
{
    let nl = seq!['\n'];
    let l = server_line(resolver);
    let rest = server_entries(s) + tail;
    lemma_header();
    lemma_server_line(resolver);
    lemma_lines_server_entries(s, tail);
    lemma_lines_first(l, rest);
    lemma_lines_first(HEADER@, l + nl + rest);
    assert(HEADER@ + nl + server_entry(resolver) + rest =~= HEADER@ + nl + (l + nl + rest));
    assert(seq![HEADER@] + (seq![l] + (server_lines(s) + lines(tail))) =~= seq![HEADER@, l]
        + server_lines(s) + lines(tail));
}

/// The first lines of a file of ours: the header, then our resolver.
proof fn lemma_rendered_first(resolver: Seq<char>, s: Seq<Ipv4Addr>, ds: Seq<Seq<char>>)
    requires
        is_word(resolver),
    ensures
        ({
            let ls = lines(rendered(resolver, s, ds));
            ls.len() >= 2 && ls[0] == HEADER@ && ls[1] == server_line(resolver)
        }),
{
    lemma_rendered_top(resolver, s, search_entry(ds));
    assert(rendered(resolver, s, ds) =~= HEADER@ + seq!['\n'] + server_entry(resolver) + (
    server_entries(s) + search_entry(ds)));
}

/// A file that this daemon renders is recognised as ours, so it is never rewritten or taken
/// for another network's.
pub proof fn rendered_file_is_held(
    resolver: IpAddr,
    s: Seq<Ipv4Addr>,
    ds: Seq<Seq<char>>,
    merged_with: Option<Ipv4Addr>,
)
    ensures
        marked(lines(rendered(ip_text(resolver), s, ds))),
        reassert_for(lines(rendered(ip_text(resolver), s, ds)), merged_with) == Reassert::Held,
{
    ip_text_is_a_word(resolver);
    lemma_rendered_first(ip_text(resolver), s, ds);
    lemma_header();
    assert(marker_line(lines(rendered(ip_text(resolver), s, ds))[0]));
}

/// The first nameserver of a rendered file is the resolver it was rendered for: the C
/// library asks it before any of the others.
pub proof fn rendered_file_is_asked_through_our_resolver(
    resolver: IpAddr,
    s: Seq<Ipv4Addr>,
    ds: Seq<Seq<char>>,
)
    ensures
        first_server(lines(rendered(ip_text(resolver), s, ds))) == Some(ip_text(resolver)),
{
    let a = ip_text(resolver);
    let ls = lines(rendered(a, s, ds));
    ip_text_is_a_word(resolver);
    ip_text_names_its_address(resolver);
    lemma_rendered_first(a, s, ds);
    lemma_header();
    lemma_marker_line(HEADER@);
    lemma_server_line(a);
    assert(ls.drop_first()[0] == ls[1]);
    assert(first_server(ls) == first_server(ls.drop_first()));
    assert(is_ip(a));
}

pub proof fn lemma_upstreams_add(a: Seq<Seq<char>>, b: Seq<Seq<char>>)
    ensures
        upstreams(a + b) == upstreams(a) + upstreams(b),
    decreases b.len(),
{
    if b.len() == 0 {
        assert(a + b =~= a);
        assert(upstreams(a) + upstreams(b) =~= upstreams(a));
    } else {
        lemma_upstreams_add(a, b.drop_last());
        assert((a + b).drop_last() =~= a + b.drop_last());
        assert((a + b).last() == b.last());
        assert(upstreams(a + b) =~= upstreams(a) + upstreams(b));
    }
}

proof fn lemma_upstreams_server_lines(s: Seq<Ipv4Addr>)
    requires
        !s.contains(magic_v4()),
    ensures
        upstreams(server_lines(s)) == s,
    decreases s.len(),
{
    if s.len() == 0 {
        assert(upstreams(server_lines(s)) =~= s);
    } else {
        let init = s.drop_last();
        let ip = s.last();
        assert(s[s.len() - 1] == ip);
        assert(!init.contains(magic_v4())) by {
            assert forall|i: int| 0 <= i < init.len() implies init[i] != magic_v4() by {
                assert(s[i] == init[i]);
            }
        }
        lemma_upstreams_server_lines(init);
        ip_text_is_a_word(IpAddr::V4(ip));
        lemma_server_line(v4_text(ip));
        v4_text_names_exactly_its_address(v4_text(ip), ip);
        assert(server_lines(s).drop_last() =~= server_lines(init));
        assert(server_lines(s).last() == server_line(v4_text(ip)));
        assert(s =~= init.push(ip));
    }
}

/// The upstreams that a file of ours names are the servers it was rendered with: our own
/// resolver is not captured as one of them. A search domain with a newline in it would be
/// more than one line, and is left out.
pub proof fn rendered_servers_are_read_back(s: Seq<Ipv4Addr>, ds: Seq<Seq<char>>)
    requires
        !s.contains(magic_v4()),
        forall|i: int| 0 <= i < ds.len() ==> !(#[trigger] ds[i]).contains('\n'),
    ensures
        upstreams(lines(rendered(v6_text(magic_v6()), s, ds))) == s,
{
    let a = v6_text(magic_v6());
    lemma_magic_v6_line();
    lemma_header();
    lemma_marker_line(HEADER@);
    lemma_rendered_lines(a, s, ds);
    lemma_upstreams_server_lines(s);
    let two = seq![HEADER@, server_line(a)];
    assert(upstreams(two) =~= seq![]) by {
        assert(two.drop_last() =~= seq![HEADER@]);
        assert(seq![HEADER@].drop_last() =~= seq![]);
        assert(upstreams(seq![HEADER@].drop_last()) =~= seq![]);
        assert(upstream(HEADER@) is None);
        assert(upstreams(seq![HEADER@]) =~= seq![]);
        assert(upstream(server_line(a)) is None);
    }
    lemma_upstreams_add(two, server_lines(s));
    assert(seq![] + s =~= s);
    if ds.len() > 0 {
        lemma_any_search_line(ds);
        let all = rendered_lines(a, s, ds);
        assert(all.drop_last() =~= two + server_lines(s));
        assert(all.last() == search_line(ds));
    }
}

/// The line that names the mesh resolver is ours, and names no upstream.
proof fn lemma_magic_v6_line()
    ensures
        is_word(v6_text(magic_v6())),
        our_server(server_line(v6_text(magic_v6()))),
        upstream(server_line(v6_text(magic_v6()))) is None,
{
    let a = v6_text(magic_v6());
    v6_text_names_its_address(magic_v6());
    v6_text_is_a_word(magic_v6());
    lemma_server_line(a);
}

/// What is left of a file of ours once our entries are out of it: the servers and the
/// host's own search domains, or one empty line where there are none.
pub proof fn stripping_undoes_rendering(s: Seq<Ipv4Addr>, ds: Seq<Seq<char>>)
    requires
        !s.contains(magic_v4()),
        forall|i: int| 0 <= i < ds.len() ==> is_word(#[trigger] ds[i]),
    ensures
        stripped(rendered(v6_text(magic_v6()), s, ds)) == (if s.len() == 0 && host_only(ds).len()
            == 0 {
            seq!['\n']
        } else {
            server_entries(s) + search_entry(host_only(ds))
        }),
{
    let a = v6_text(magic_v6());
    let c = rendered(a, s, ds);
    let h = host_only(ds);
    let ls = rendered_lines(a, s, ds);
    lemma_magic_v6_line();
    lemma_words_have_no_newline(ds);
    lemma_rendered_lines(a, s, ds);
    lemma_host_only(ds);
    let two = seq![HEADER@, server_line(a)];
    lemma_header();
    assert(kept_lines(two) =~= seq![]) by {
        assert(two.drop_last() =~= seq![HEADER@]);
        assert(seq![HEADER@].drop_last() =~= seq![]);
        assert(kept_lines(seq![HEADER@].drop_last()) =~= seq![]);
        assert(without_ours(HEADER@) is None);
        assert(kept_lines(seq![HEADER@]) =~= seq![]);
        assert(without_ours(server_line(a)) is None);
    }
    lemma_kept_server_lines(s);
    lemma_kept_add(two, server_lines(s));
    let k = kept_lines(ls);
    let expect = if h.len() == 0 {
        server_lines(s)
    } else {
        server_lines(s).push("search "@ + join(h, seq![' ']))
    };
    assert(k =~= expect) by {
        assert(seq![] + server_lines(s) =~= server_lines(s));
        if ds.len() > 0 {
            let l = "search "@ + join(ds, seq![' ']);
            lemma_search_line(ds);
            assert(ls.drop_last() =~= two + server_lines(s));
            assert(ls.last() == l);
            assert(h.len() == ds.len() ==> h == ds);
        }
    }
    // The header is gone, so something was stripped.
    assert(k != ls) by {
        assert(k.len() < ls.len());
    }
    lemma_join_lines(s, h);
}

/// Server lines and a search line, joined, are the entries of a file.
proof fn lemma_join_lines(s: Seq<Ipv4Addr>, h: Seq<Seq<char>>)
    ensures
        ({
            let k = if h.len() == 0 {
                server_lines(s)
            } else {
                server_lines(s).push("search "@ + join(h, seq![' ']))
            };
            join(k, seq!['\n']).push('\n') == (if k.len() == 0 {
                seq!['\n']
            } else {
                server_entries(s) + search_entry(h)
            })
        }),
{
    let nl = seq!['\n'];
    lemma_join_server_lines(s);
    if h.len() == 0 {
        if s.len() == 0 {
            assert(join(server_lines(s), nl).push('\n') =~= nl);
        } else {
            assert(server_entries(s) + search_entry(h) =~= server_entries(s));
        }
    } else {
        let l = "search "@ + join(h, seq![' ']);
        let k = server_lines(s).push(l);
        assert(k.drop_last() =~= server_lines(s));
        if s.len() == 0 {
            assert(k =~= seq![l]);
            assert(join(k, nl) == l);
            assert(join(k, nl).push('\n') =~= server_entries(s) + search_entry(h));
        } else {
            assert(join(k, nl) =~= join(server_lines(s), nl) + nl + l);
            assert(join(k, nl).push('\n') =~= join(server_lines(s), nl).push('\n') + l + nl);
            assert(join(k, nl).push('\n') =~= server_entries(s) + search_entry(h));
        }
    }
}

proof fn lemma_join_server_lines(s: Seq<Ipv4Addr>)
    ensures
        s.len() > 0 ==> join(server_lines(s), seq!['\n']).push('\n') == server_entries(s),
    decreases s.len(),
{
    let nl = seq!['\n'];
    if s.len() > 0 {
        let init = s.drop_last();
        let l = server_line(v4_text(s.last()));
        lemma_join_server_lines(init);
        assert(server_lines(s).drop_last() =~= server_lines(init));
        assert(server_lines(s).last() == l);
        assert(server_entry(v4_text(s.last())) =~= l + nl);
        if init.len() == 0 {
            assert(server_entries(init) =~= seq![]);
            assert(join(server_lines(s), nl).push('\n') =~= server_entries(s));
        } else {
            assert(join(server_lines(s), nl).push('\n') =~= join(server_lines(init), nl).push('\n')
                + (l + nl));
        }
    }
}

proof fn lemma_kept_server_lines(s: Seq<Ipv4Addr>)
    requires
        !s.contains(magic_v4()),
    ensures
        kept_lines(server_lines(s)) == server_lines(s),
{
    let ls = server_lines(s);
    assert forall|i: int| 0 <= i < ls.len() implies without_ours(#[trigger] ls[i]) == Some(ls[i]) by {
        let ip = s[i];
        ip_text_is_a_word(IpAddr::V4(ip));
        lemma_server_line(v4_text(ip));
        v4_text_names_exactly_its_address(v4_text(ip), ip);
        assert(host_only(search_words(ls[i])) =~= search_words(ls[i]));
    }
    lemma_kept_lines_all(ls);
}

pub proof fn lemma_kept_add(a: Seq<Seq<char>>, b: Seq<Seq<char>>)
    ensures
        kept_lines(a + b) == kept_lines(a) + kept_lines(b),
    decreases b.len(),
{
    if b.len() == 0 {
        assert(a + b =~= a);
        assert(kept_lines(a) + kept_lines(b) =~= kept_lines(a));
    } else {
        lemma_kept_add(a, b.drop_last());
        assert((a + b).drop_last() =~= a + b.drop_last());
        assert((a + b).last() == b.last());
        assert(kept_lines(a + b) =~= kept_lines(a) + kept_lines(b));
    }
}

} // verus!
