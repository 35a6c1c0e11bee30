//! What the daemon reads out of a `resolv.conf` and an `nsswitch.conf`, and what it makes of it.

use vstd::prelude::*;

use crate::addr::{
    ip_text_is_a_word, read_v4, read_v6, v4_text, v4_text_names_exactly_its_address, v6_text,
    v6_text_is_a_word, v6_text_names_its_address, IpAddr, Ipv4Addr,
};
use crate::digits::decimal;
use crate::dns::resolv_conf::{
    died, fallbacks, first_overlay, first_server, foreign_resolver, host_modules, is_stub, marked,
    marker_line, reassert_for, rendered, server_text, upstream, upstreams, Reassert, HEADER, MARKER,
};
use crate::dns::resolv_laws::{
    lemma_header, lemma_marker_line, lemma_rendered_lines, lemma_search_line, lemma_upstreams_add,
    rendered_lines, search_line, server_line,
};
use crate::dns::magic_v6;
use crate::text::{join, lines, starts_with, trim, words};
use crate::text_lemmas::{
    is_word, lemma_words_first, lemma_words_have_no_newline, lemma_words_of_joined,
    lemma_words_of_word,
};

verus! {

/// Whether a line says `nameserver` and then the text `a`.
pub open spec fn says_nameserver(l: Seq<char>, a: Seq<char>) -> bool {
    words(l).len() >= 2 && words(l)[0] == "nameserver"@ && words(l)[1] == a
}

/// The nameservers of a file are read line by line, in order: a line gives its IPv4 address and
/// nothing else, and `100.100.100.53`, which is ours, gives nothing.
pub proof fn nameservers_are_read_line_by_line(
    before: Seq<Seq<char>>,
    l: Seq<char>,
    after: Seq<Seq<char>>,
    ip: Ipv4Addr,
)
    ensures
        upstreams(before + seq![l] + after) == upstreams(before) + upstreams(seq![l]) + upstreams(
            after,
        ),
        upstreams(seq![l]).len() <= 1,
        upstreams(seq![l]) == seq![ip] <==> says_nameserver(l, v4_text(ip)) && ip != (Ipv4Addr {
            a: 100,
            b: 100,
            c: 100,
            d: 53,
        }),
        upstreams(seq![]) == Seq::<Ipv4Addr>::empty(),
{
    lemma_upstreams_add(before + seq![l], after);
    lemma_upstreams_add(before, seq![l]);
    let one = seq![l];
    assert(one.drop_last() =~= seq![]);
    assert(upstreams(one.drop_last()) =~= seq![]);
    assert(upstreams(one) =~= (match upstream(l) {
        Some(x) => seq![x],
        None => seq![],
    }));
    if server_text(l) is Some {
        v4_text_names_exactly_its_address(server_text(l)->0, ip);
        if read_v4(server_text(l)->0) is Some {
            v4_text_names_exactly_its_address(server_text(l)->0, read_v4(server_text(l)->0)->0);
        }
    }
    if upstreams(one) == seq![ip] {
        assert(upstreams(one)[0] == ip);
    }
}

/// An address is among a file's upstreams exactly where some line names it.
pub proof fn an_upstream_is_one_that_a_line_names(ls: Seq<Seq<char>>, ip: Ipv4Addr)
    ensures
        upstreams(ls).contains(ip) <==> ip != (Ipv4Addr { a: 100, b: 100, c: 100, d: 53 })
            && exists|k: int| 0 <= k < ls.len() && says_nameserver(#[trigger] ls[k], v4_text(ip)),
    decreases ls.len(),
{
    if ls.len() > 0 {
        let init = ls.drop_last();
        let l = ls.last();
        an_upstream_is_one_that_a_line_names(init, ip);
        nameservers_are_read_line_by_line(init, l, seq![], ip);
        assert(init + seq![l] + seq![] =~= ls);
        assert(upstreams(ls) =~= upstreams(init) + upstreams(seq![l]));
        let ours = ip == (Ipv4Addr { a: 100, b: 100, c: 100, d: 53 });
        if upstreams(ls).contains(ip) {
            let j = upstreams(ls).index_of(ip);
            if j < upstreams(init).len() {
                assert(upstreams(init)[j] == ip);
                assert(upstreams(init).contains(ip));
                let k = choose|k: int|
                    0 <= k < init.len() && says_nameserver(#[trigger] init[k], v4_text(ip));
                assert(ls[k] == init[k]);
            } else {
                assert(upstreams(seq![l])[0] == ip);
                assert(upstreams(seq![l]) =~= seq![ip]);
                assert(ls[ls.len() - 1] == l);
            }
        } else if !ours {
            assert forall|k: int| 0 <= k < ls.len() implies !says_nameserver(
                #[trigger] ls[k],
                v4_text(ip),
            ) by {
                if says_nameserver(ls[k], v4_text(ip)) {
                    if k < init.len() {
                        assert(init[k] == ls[k]);
                        let j = upstreams(init).index_of(ip);
                        assert(upstreams(ls)[j] == ip);
                    } else {
                        assert(upstreams(ls)[upstreams(init).len() as int] == ip);
                    }
                }
            }
        }
    }
}

/// The nameserver that the C library asks is the first line that names an address of either
/// family: there is no such line before it.
pub proof fn the_first_address_is_asked(ls: Seq<Seq<char>>, a: Seq<char>)
    ensures
        first_server(ls) == Some(a) <==> exists|k: int|
            0 <= k < ls.len() && says_nameserver(#[trigger] ls[k], a) && (read_v4(a) is Some
                || read_v6(a) is Some) && forall|j: int, b: Seq<char>|
                0 <= j < k && #[trigger] says_nameserver(ls[j], b) ==> read_v4(b) is None
                    && read_v6(b) is None,
    decreases ls.len(),
{
    if ls.len() > 0 {
        let rest = ls.drop_first();
        the_first_address_is_asked(rest, a);
        let here = server_text(ls[0]) is Some && (read_v4(server_text(ls[0])->0) is Some || read_v6(
            server_text(ls[0])->0,
        ) is Some);
        if here {
            let b = server_text(ls[0])->0;
            assert(says_nameserver(ls[0], b));
            if b == a {
                assert(first_server(ls) == Some(a));
            }
        } else {
            assert(first_server(ls) == first_server(rest));
            if first_server(ls) == Some(a) {
                let k = choose|k: int|
                    0 <= k < rest.len() && says_nameserver(#[trigger] rest[k], a) && (read_v4(a) is Some
                        || read_v6(a) is Some) && forall|j: int, b: Seq<char>|
                        0 <= j < k && #[trigger] says_nameserver(rest[j], b) ==> read_v4(b) is None
                            && read_v6(b) is None;
                assert(ls[k + 1] == rest[k]);
                assert forall|j: int, b: Seq<char>|
                    0 <= j < k + 1 && #[trigger] says_nameserver(ls[j], b) implies read_v4(b) is None
                    && read_v6(b) is None by {
                    if j > 0 {
                        assert(says_nameserver(rest[j - 1], b));
                    }
                }
            }
            if exists|k: int|
                0 <= k < ls.len() && says_nameserver(#[trigger] ls[k], a) && (read_v4(a) is Some
                    || read_v6(a) is Some) && forall|j: int, b: Seq<char>|
                    0 <= j < k && #[trigger] says_nameserver(ls[j], b) ==> read_v4(b) is None
                        && read_v6(b) is None {
                let k = choose|k: int|
                    0 <= k < ls.len() && says_nameserver(#[trigger] ls[k], a) && (read_v4(a) is Some
                        || read_v6(a) is Some) && forall|j: int, b: Seq<char>|
                        0 <= j < k && #[trigger] says_nameserver(ls[j], b) ==> read_v4(b) is None
                            && read_v6(b) is None;
                assert(k > 0);
                assert(rest[k - 1] == ls[k]);
                assert forall|j: int, b: Seq<char>|
                    0 <= j < k - 1 && #[trigger] says_nameserver(rest[j], b) implies read_v4(
                    b,
                ) is None && read_v6(b) is None by {
                    assert(says_nameserver(ls[j + 1], b));
                }
            }
        }
    }
}

/// An IPv4 address as one number.
pub open spec fn number_of(ip: Ipv4Addr) -> int {
    ip.a * 16777216 + ip.b * 65536 + ip.c * 256 + ip.d
}

/// Whether an address lies between `100.64.0.0` and `100.127.255.255`, which overlay networks
/// share.
pub open spec fn between_the_overlay_bounds(ip: Ipv4Addr) -> bool {
    number_of(Ipv4Addr { a: 100, b: 64, c: 0, d: 0 }) <= number_of(ip) <= number_of(
        Ipv4Addr { a: 100, b: 127, c: 255, d: 255 },
    )
}

/// Another overlay's resolver is the first server between the bounds of the range that overlays
/// share: those before it lie outside, and no other server counts.
pub proof fn the_first_server_in_the_overlay_range_counts(s: Seq<Ipv4Addr>, ip: Ipv4Addr)
    ensures
        first_overlay(s) == Some(ip) <==> exists|k: int|
            0 <= k < s.len() && #[trigger] s[k] == ip && between_the_overlay_bounds(ip)
                && forall|j: int| 0 <= j < k ==> !between_the_overlay_bounds(#[trigger] s[j]),
        first_overlay(s) is None <==> forall|j: int|
            0 <= j < s.len() ==> !between_the_overlay_bounds(#[trigger] s[j]),
    decreases s.len(),
{
    if s.len() > 0 {
        let rest = s.drop_first();
        the_first_server_in_the_overlay_range_counts(rest, ip);
        if !between_the_overlay_bounds(s[0]) {
            assert(first_overlay(s) == first_overlay(rest));
            assert forall|j: int| 0 <= j < rest.len() implies #[trigger] rest[j] == s[j + 1] by {}
            if first_overlay(s) == Some(ip) {
                let k = choose|k: int|
                    0 <= k < rest.len() && #[trigger] rest[k] == ip && between_the_overlay_bounds(ip)
                        && forall|j: int|
                        0 <= j < k ==> !between_the_overlay_bounds(#[trigger] rest[j]);
                assert(s[k + 1] == ip);
                assert forall|j: int| 0 <= j < k + 1 implies !between_the_overlay_bounds(
                    #[trigger] s[j],
                ) by {
                    if j > 0 {
                        assert(!between_the_overlay_bounds(rest[j - 1]));
                    }
                }
            }
            if exists|k: int|
                0 <= k < s.len() && #[trigger] s[k] == ip && between_the_overlay_bounds(ip)
                    && forall|j: int| 0 <= j < k ==> !between_the_overlay_bounds(#[trigger] s[j]) {
                let k = choose|k: int|
                    0 <= k < s.len() && #[trigger] s[k] == ip && between_the_overlay_bounds(ip)
                        && forall|j: int| 0 <= j < k ==> !between_the_overlay_bounds(#[trigger] s[j]);
                assert(k > 0);
                assert(rest[k - 1] == ip);
                assert forall|j: int| 0 <= j < k - 1 implies !between_the_overlay_bounds(
                    #[trigger] rest[j],
                ) by {
                    assert(!between_the_overlay_bounds(s[j + 1]));
                }
            }
            if forall|j: int| 0 <= j < rest.len() ==> !between_the_overlay_bounds(#[trigger] rest[j]) {
                assert forall|j: int| 0 <= j < s.len() implies !between_the_overlay_bounds(
                    #[trigger] s[j],
                ) by {
                    if j > 0 {
                        assert(!between_the_overlay_bounds(rest[j - 1]));
                    }
                }
            }
            if forall|j: int| 0 <= j < s.len() ==> !between_the_overlay_bounds(#[trigger] s[j]) {
                assert forall|j: int| 0 <= j < rest.len() implies !between_the_overlay_bounds(
                    #[trigger] rest[j],
                ) by {
                    assert(!between_the_overlay_bounds(s[j + 1]));
                }
            }
        } else {
            assert(first_overlay(s) == Some(s[0]));
        }
    }
}

/// Whether some line begins, but for white space, with the words that this daemon puts on every
/// file it writes.
pub open spec fn carries_our_words(ls: Seq<Seq<char>>) -> bool {
    exists|i: int| 0 <= i < ls.len() && starts_with(trim(#[trigger] ls[i]), "# Added by rayfish"@)
}

proof fn lemma_marked(ls: Seq<Seq<char>>)
    ensures
        marked(ls) == carries_our_words(ls),
{
    assert(MARKER@ == "# Added by rayfish"@);
    if marked(ls) {
        let i = choose|i: int| 0 <= i < ls.len() && marker_line(#[trigger] ls[i]);
        assert(starts_with(trim(ls[i]), "# Added by rayfish"@));
    }
    if carries_our_words(ls) {
        let i = choose|i: int|
            0 <= i < ls.len() && starts_with(trim(#[trigger] ls[i]), "# Added by rayfish"@);
        assert(marker_line(ls[i]));
    }
}

/// A file that carries our words is held whatever else it says. Another one is merged with the
/// overlay whose resolver it names, whoever it was shared with before; and one that names none
/// is written again, unless it was shared: then the host's servers have come back, and are
/// captured first.
pub proof fn a_file_is_held_merged_reclaimed_or_rewritten(
    ls: Seq<Seq<char>>,
    merged_with: Option<Ipv4Addr>,
)
    ensures
        reassert_for(ls, merged_with) == Reassert::Held <==> carries_our_words(ls),
        reassert_for(ls, merged_with) is Merge <==> !carries_our_words(ls) && exists|k: int|
            0 <= k < upstreams(ls).len() && between_the_overlay_bounds(#[trigger] upstreams(ls)[k]),
        reassert_for(ls, merged_with) matches Reassert::Merge(ip) ==> exists|k: int|
            0 <= k < upstreams(ls).len() && #[trigger] upstreams(ls)[k] == ip
                && between_the_overlay_bounds(ip) && forall|j: int|
                0 <= j < k ==> !between_the_overlay_bounds(#[trigger] upstreams(ls)[j]),
        !carries_our_words(ls) && (forall|k: int|
            0 <= k < upstreams(ls).len() ==> !between_the_overlay_bounds(#[trigger] upstreams(ls)[k]))
            ==> reassert_for(ls, merged_with) == (if merged_with is Some {
            Reassert::Reclaim
        } else {
            Reassert::Rewrite
        }),
{
    lemma_marked(ls);
    let s = upstreams(ls);
    the_first_server_in_the_overlay_range_counts(s, Ipv4Addr { a: 0, b: 0, c: 0, d: 0 });
    if first_overlay(s) is Some {
        the_first_server_in_the_overlay_range_counts(s, first_overlay(s)->0);
    }
}

/// The question who took a file stops at our words; the question which overlay it names sees
/// through them: to put our header on a file answers the first with nobody, and leaves the
/// second answer as it was.
pub proof fn our_words_hide_the_taker_and_not_the_overlay(ls: Seq<Seq<char>>)
    ensures
        foreign_resolver(ls) == (if carries_our_words(ls) {
            None
        } else {
            first_overlay(upstreams(ls))
        }),
        foreign_resolver(seq!["# Added by rayfish - do not edit"@] + ls) is None,
        first_overlay(upstreams(seq!["# Added by rayfish - do not edit"@] + ls)) == first_overlay(
            upstreams(ls),
        ),
{
    let h = seq![HEADER@];
    lemma_marked(ls);
    lemma_header();
    lemma_marker_line(HEADER@);
    assert((h + ls)[0] == HEADER@);
    assert(marked(h + ls));
    lemma_upstreams_add(h, ls);
    assert(h.drop_last() =~= seq![]);
    assert(upstreams(h.drop_last()) =~= seq![]);
    assert(upstreams(h) =~= seq![]);
    assert(upstreams(h) + upstreams(ls) =~= upstreams(ls));
}

proof fn lemma_stub_texts()
    ensures
        v4_text(Ipv4Addr { a: 127, b: 0, c: 0, d: 53 }) == "127.0.0.53"@,
        v4_text(Ipv4Addr { a: 127, b: 0, c: 0, d: 54 }) == "127.0.0.54"@,
{
    reveal_strlit("127.0.0.53");
    reveal_strlit("127.0.0.54");
    reveal_with_fuel(decimal, 4);
    reveal_with_fuel(join, 5);
    assert(decimal(127) =~= seq!['1', '2', '7']);
    assert(decimal(53) =~= seq!['5', '3']);
    assert(decimal(54) =~= seq!['5', '4']);
    assert(decimal(0) =~= seq!['0']);
    assert(v4_text(Ipv4Addr { a: 127, b: 0, c: 0, d: 53 }) =~= "127.0.0.53"@);
    assert(v4_text(Ipv4Addr { a: 127, b: 0, c: 0, d: 54 }) =~= "127.0.0.54"@);
}

/// A file points at systemd-resolved exactly where one of its nameservers is `127.0.0.53` or
/// `127.0.0.54`. Any other loopback server, a forwarder at `127.0.0.1` among them, is not
/// systemd-resolved's.
pub proof fn only_the_stub_points_at_resolved(ls: Seq<Seq<char>>)
    ensures
        (exists|i: int| 0 <= i < upstreams(ls).len() && is_stub(#[trigger] upstreams(ls)[i])) <==> (
        exists|k: int|
            0 <= k < ls.len() && (says_nameserver(#[trigger] ls[k], "127.0.0.53"@)
                || says_nameserver(ls[k], "127.0.0.54"@))),
{
    let a = Ipv4Addr { a: 127, b: 0, c: 0, d: 53 };
    let b = Ipv4Addr { a: 127, b: 0, c: 0, d: 54 };
    lemma_stub_texts();
    an_upstream_is_one_that_a_line_names(ls, a);
    an_upstream_is_one_that_a_line_names(ls, b);
    let s = upstreams(ls);
    if exists|i: int| 0 <= i < s.len() && is_stub(#[trigger] s[i]) {
        let i = choose|i: int| 0 <= i < s.len() && is_stub(#[trigger] s[i]);
        assert(s.contains(s[i]));
        assert(s[i] == a || s[i] == b);
        if s[i] == a {
            let k = choose|k: int| 0 <= k < ls.len() && says_nameserver(#[trigger] ls[k], v4_text(a));
            assert(says_nameserver(ls[k], "127.0.0.53"@));
        } else {
            let k = choose|k: int| 0 <= k < ls.len() && says_nameserver(#[trigger] ls[k], v4_text(b));
            assert(says_nameserver(ls[k], "127.0.0.54"@));
        }
    }
    if exists|k: int|
        0 <= k < ls.len() && (says_nameserver(#[trigger] ls[k], "127.0.0.53"@) || says_nameserver(
            ls[k],
            "127.0.0.54"@,
        )) {
        let k = choose|k: int|
            0 <= k < ls.len() && (says_nameserver(#[trigger] ls[k], "127.0.0.53"@)
                || says_nameserver(ls[k], "127.0.0.54"@));
        if says_nameserver(ls[k], "127.0.0.53"@) {
            assert(says_nameserver(ls[k], v4_text(a)));
            assert(is_stub(s[s.index_of(a)]));
        } else {
            assert(says_nameserver(ls[k], v4_text(b)));
            assert(is_stub(s[s.index_of(b)]));
        }
    }
}

/// A `hosts:` line gives the words behind it as its modules, however it is indented and spaced;
/// a line that begins with anything else, a comment sign among them, gives none.
pub proof fn a_hosts_line_gives_its_modules(l: Seq<char>, m: Seq<char>)
    ensures
        trim(l) == "hosts:"@ + m ==> host_modules(l) == words(m),
        !starts_with(trim(l), "hosts:"@) ==> host_modules(l).len() == 0,
        trim(l).len() > 0 && trim(l)[0] == '#' ==> host_modules(l).len() == 0,
{
    reveal_strlit("hosts:");
    if trim(l) == "hosts:"@ + m {
        assert(trim(l).take(6) =~= "hosts:"@);
        assert(trim(l).skip(6) =~= m);
    }
    if starts_with(trim(l), "hosts:"@) {
        assert(trim(l)[0] == trim(l).take(6)[0]);
    }
}

/// The servers that stopped answering are those that answered before and do not answer now, in
/// their order.
pub proof fn the_dead_are_those_that_answered_before(before: Seq<Ipv4Addr>, after: Seq<Ipv4Addr>)
    ensures
        died(before, after) == before.filter(|ip: Ipv4Addr| !after.contains(ip)),
        died(before, before).len() == 0,
        died(before, seq![]) == before,
{
    lemma_died_filter(before, after);
    lemma_died_filter(before, before);
    lemma_died_filter(before, seq![]);
    let same = before.filter(|ip: Ipv4Addr| !before.contains(ip));
    if same.len() > 0 {
        before.lemma_filter_pred(|ip: Ipv4Addr| !before.contains(ip), 0);
        assert(same.contains(same[0]));
        before.lemma_filter_contains_rev(|ip: Ipv4Addr| !before.contains(ip), same[0]);
    }
    lemma_died_none(before);
}

proof fn lemma_died_filter(before: Seq<Ipv4Addr>, after: Seq<Ipv4Addr>)
    ensures
        died(before, after) == before.filter(|ip: Ipv4Addr| !after.contains(ip)),
    decreases before.len(),
{
    reveal(Seq::filter);
    if before.len() > 0 {
        lemma_died_filter(before.drop_last(), after);
    }
}

proof fn lemma_died_none(before: Seq<Ipv4Addr>)
    ensures
        died(before, seq![]) == before,
    decreases before.len(),
{
    if before.len() > 0 {
        lemma_died_none(before.drop_last());
        assert(before.drop_last().push(before.last()) =~= before);
    } else {
        assert(died(before, seq![]) =~= before);
    }
}

/// A file of ours holds, line by line: our words, our resolver `200::53` before any other, each
/// server in its order, and, where there are search domains, one `search` line with all of them.
pub proof fn a_file_of_ours_says_what_it_was_made_for(
    s: Seq<Ipv4Addr>,
    ds: Seq<Seq<char>>,
    j: int,
)
    requires
        forall|i: int| 0 <= i < ds.len() ==> is_word(#[trigger] ds[i]),
        0 <= j < s.len(),
    ensures
        ({
            let ls = lines(rendered(v6_text(magic_v6()), s, ds));
            &&& ls.len() == 2 + s.len() + (if ds.len() > 0 {
                1int
            } else {
                0
            })
            &&& starts_with(trim(ls[0]), "# Added by rayfish"@)
            &&& words(ls[1]).len() == 2
            &&& words(ls[1])[0] == "nameserver"@
            &&& read_v6(words(ls[1])[1]) == Some(seq![0x200u16, 0, 0, 0, 0, 0, 0, 0x53])
            &&& words(ls[2 + j]) == seq!["nameserver"@, v4_text(s[j])]
            &&& ds.len() > 0 ==> words(ls.last()) == seq!["search"@] + ds
        }),
{
    let a = v6_text(magic_v6());
    lemma_file_of_ours(s, ds);
    ip_text_is_a_word(IpAddr::V4(s[j]));
    lemma_server_words(v4_text(s[j]));
    let ls = rendered_lines(a, s, ds);
    assert(ls[2 + j] == server_line(v4_text(s[j])));
}

/// The same of a file with no server behind ours.
pub proof fn a_file_of_ours_alone_says_what_it_was_made_for(ds: Seq<Seq<char>>)
    requires
        forall|i: int| 0 <= i < ds.len() ==> is_word(#[trigger] ds[i]),
    ensures
        ({
            let ls = lines(rendered(v6_text(magic_v6()), seq![], ds));
            &&& ls.len() == 2 + (if ds.len() > 0 {
                1int
            } else {
                0
            })
            &&& starts_with(trim(ls[0]), "# Added by rayfish"@)
            &&& words(ls[1]).len() == 2
            &&& words(ls[1])[0] == "nameserver"@
            &&& read_v6(words(ls[1])[1]) == Some(seq![0x200u16, 0, 0, 0, 0, 0, 0, 0x53])
            &&& ds.len() > 0 ==> words(ls.last()) == seq!["search"@] + ds
        }),
{
    lemma_file_of_ours(seq![], ds);
}

proof fn lemma_server_words(a: Seq<char>)
    requires
        is_word(a),
    ensures
        words(server_line(a)) == seq!["nameserver"@, a],
{
    reveal_strlit("nameserver ");
    reveal_strlit("nameserver");
    let k = "nameserver"@;
    assert(is_word(k));
    assert(server_line(a) =~= k + seq![' '] + a);
    lemma_words_first(k, ' ', a);
    lemma_words_of_word(a);
    assert(words(server_line(a)) =~= seq![k, a]);
}

proof fn lemma_file_of_ours(s: Seq<Ipv4Addr>, ds: Seq<Seq<char>>)
    requires
        forall|i: int| 0 <= i < ds.len() ==> is_word(#[trigger] ds[i]),
    ensures
        ({
            let a = v6_text(magic_v6());
            let ls = rendered_lines(a, s, ds);
            &&& lines(rendered(a, s, ds)) == ls
            &&& ls.len() == 2 + s.len() + (if ds.len() > 0 {
                1int
            } else {
                0
            })
            &&& starts_with(trim(ls[0]), "# Added by rayfish"@)
            &&& words(ls[1]) == seq!["nameserver"@, a]
            &&& read_v6(a) == Some(seq![0x200u16, 0, 0, 0, 0, 0, 0, 0x53])
            &&& ds.len() > 0 ==> words(ls.last()) == seq!["search"@] + ds
        }),
{
    let a = v6_text(magic_v6());
    v6_text_names_its_address(magic_v6());
    v6_text_is_a_word(magic_v6());
    lemma_words_have_no_newline(ds);
    lemma_rendered_lines(a, s, ds);
    lemma_header();
    assert(MARKER@ == "# Added by rayfish"@);
    lemma_server_words(a);
    assert(magic_v6() =~= seq![0x200u16, 0, 0, 0, 0, 0, 0, 0x53]);
    let ls = rendered_lines(a, s, ds);
    assert(ls[0] == HEADER@);
    assert(ls[1] == server_line(a));
    if ds.len() > 0 {
        lemma_search_line(ds);
        reveal_strlit("search");
        reveal_strlit("search ");
        let tail = join(ds, seq![' ']);
        let l = "search "@ + tail;
        assert(search_line(ds) == l);
        assert(l =~= "search"@ + seq![' '] + tail);
        assert(is_word("search"@));
        lemma_words_first("search"@, ' ', tail);
        lemma_words_of_joined(ds);
        assert(ls.last() == l);
    }
}

/// The C library reads three nameservers, of which ours is the first: two more fit, and they
/// are the first two there are.
pub proof fn two_servers_fit_behind_ours(s: Seq<Ipv4Addr>)
    ensures
        fallbacks(s).len() == (if s.len() < 2 {
            s.len() as int
        } else {
            2
        }),
        forall|i: int| 0 <= i < fallbacks(s).len() ==> #[trigger] fallbacks(s)[i] == s[i],
{
}

} // verus!
