//! What holds of the OpenBSD configurator's captures.

use vstd::prelude::*;

use crate::addr::{
    ip_text_is_a_word, read_v4, v4_text, v4_text_names_exactly_its_address, v6_text, v6_text_is_a_word,
    v6_text_names_its_address, IpAddr, Ipv4Addr,
};
use crate::dns::magic_v6;
use crate::dns::openbsd::{
    after_installs, after_revert, host_domains, line_domains, line_server, not_ours, servers,
};
use crate::dns::resolv_conf::{rendered, HEADER};
use crate::dns::resolv_laws::{
    lemma_any_search_line, lemma_rendered_lines, rendered_lines, search_line, server_line,
    server_lines,
};
use crate::dns::search::ours;
use crate::dns::search_laws::ours_are_ray_and_what_lies_under_it;
use crate::dns::windows::addresses;
use crate::files::{after_step, after_steps, ConfigFile, FileStep};
use crate::text::{ends_with, is_space, join, lines, starts_with, trim, trim_start, words};
use crate::text_lemmas::{
    is_word, lemma_trim_end_begins, lemma_trim_solid, lemma_words_first, lemma_words_of_joined,
    lemma_words_of_trimmed, lemma_words_of_word,
};

verus! {

/// No search domain that is captured from a file is one of ours, so a network's domain does
/// not outlive the leave that drops it.
pub proof fn captured_domains_are_the_hosts(ls: Seq<Seq<char>>)
    ensures
        forall|i: int| 0 <= i < host_domains(ls).len() ==> !ours(#[trigger] host_domains(ls)[i]),
    decreases ls.len(),
{
    if ls.len() > 0 {
        let init = host_domains(ls.drop_last());
        let more = not_ours(line_domains(ls.last()));
        captured_domains_are_the_hosts(ls.drop_last());
        assert forall|i: int| 0 <= i < host_domains(ls).len() implies !ours(
            #[trigger] host_domains(ls)[i],
        ) by {
            if i < init.len() {
                assert(host_domains(ls)[i] == init[i]);
            } else {
                assert(host_domains(ls)[i] == more[i - init.len()]);
                line_domains(ls.last()).lemma_filter_pred(
                    |d: Seq<char>| !ours(d),
                    i - init.len(),
                );
            }
        }
    }
}

/// No captured server is named twice.
pub proof fn captured_servers_are_distinct(ls: Seq<Seq<char>>)
    ensures
        servers(ls).no_duplicates(),
    decreases ls.len(),
{
    if ls.len() > 0 {
        captured_servers_are_distinct(ls.drop_last());
    }
}

/// What a `nameserver` line of ours is captured as.
proof fn lemma_server_line_captured(a: Seq<char>)
    requires
        is_word(a),
    ensures
        line_server(server_line(a)) == read_v4(a),
        line_domains(server_line(a)).len() == 0,
{
    reveal_strlit("nameserver ");
    reveal_strlit("search ");
    reveal_strlit("domain ");
    let l = server_line(a);
    assert(!is_space(a[0]) && !is_space(a[a.len() - 1]));
    assert(l.last() == a.last());
    assert(l[0] == 'n');
    lemma_trim_solid(l);
    lemma_trim_solid(a);
    assert(l.take(11) =~= "nameserver "@);
    assert(l.skip(11) =~= a);
    if starts_with(l, "search "@) {
        assert(l.take(7)[0] == 's');
    }
    if starts_with(l, "domain "@) {
        assert(l.take(7)[0] == 'd');
    }
}

/// The header is captured as neither a server nor a domain.
proof fn lemma_header_captured()
    ensures
        line_server(HEADER@) is None,
        line_domains(HEADER@).len() == 0,
{
    reveal_strlit("nameserver ");
    reveal_strlit("search ");
    reveal_strlit("domain ");
    reveal_strlit("# Added by rayfish - do not edit");
    lemma_trim_solid(HEADER@);
    let l = HEADER@;
    if starts_with(l, "nameserver "@) {
        assert(l.take(11)[0] == 'n');
    }
    if starts_with(l, "search "@) {
        assert(l.take(7)[0] == 's');
    }
    if starts_with(l, "domain "@) {
        assert(l.take(7)[0] == 'd');
    }
}

/// What a `search` line of ours is captured as.
proof fn lemma_search_line_captured(ds: Seq<Seq<char>>)
    ensures
        line_server(search_line(ds)) is None,
        line_domains(search_line(ds)) == words(join(ds, seq![' '])),
{
    reveal_strlit("nameserver ");
    reveal_strlit("search ");
    reveal_strlit("search");
    reveal_strlit("domain ");
    let l = search_line(ds);
    let t = trim(l);
    let k = "search"@;
    lemma_any_search_line(ds);
    assert(l[0] == l.take(7)[0] && l[5] == l.take(7)[5]);
    assert(trim_start(l) == l);
    lemma_trim_end_begins(l);
    assert(!is_space(l[5]));
    assert(t[0] == l[0]);
    lemma_words_of_trimmed(l);
    assert(l =~= k + seq![' '] + l.skip(7));
    assert(is_word(k));
    lemma_words_first(k, ' ', l.skip(7));
    if starts_with(t, "nameserver "@) {
        assert(t.take(11)[0] == 'n');
    }
    if starts_with(t, "domain "@) {
        assert(t.take(7)[0] == 'd');
    }
    if t.len() >= 7 {
        assert(t.take(7) =~= l.take(7));
        assert(t =~= k + seq![' '] + t.skip(7));
        lemma_words_first(k, ' ', t.skip(7));
        assert(words(t.skip(7)) =~= words(t).skip(1));
        assert(words(l.skip(7)) =~= words(l).skip(1));
    } else {
        assert(t =~= k);
        lemma_words_of_word(k);
        assert(words(l.skip(7)) =~= words(l).skip(1));
        assert(line_domains(l) =~= words(join(ds, seq![' '])));
    }
}

/// The servers `s`, each where it first stands and nowhere else.
pub open spec fn each_once(s: Seq<Ipv4Addr>) -> Seq<Ipv4Addr>
    decreases s.len(),
{
    if s.len() == 0 {
        seq![]
    } else {
        let init = each_once(s.drop_last());
        if init.contains(s.last()) {
            init
        } else {
            init.push(s.last())
        }
    }
}

/// Servers of which none is named twice are as they are when each is named once.
pub proof fn lemma_each_once(s: Seq<Ipv4Addr>)
    requires
        s.no_duplicates(),
    ensures
        each_once(s) == s,
    decreases s.len(),
{
    if s.len() > 0 {
        let init = s.drop_last();
        lemma_each_once(init);
        assert(!init.contains(s.last())) by {
            if init.contains(s.last()) {
                let i = init.index_of(s.last());
                assert(s[i] == s[s.len() - 1]);
            }
        }
        assert(s =~= init.push(s.last()));
    } else {
        assert(each_once(s) =~= s);
    }
}

proof fn lemma_servers_of_lines(top: Seq<Seq<char>>, s: Seq<Ipv4Addr>)
    requires
        servers(top).len() == 0,
    ensures
        servers(top + server_lines(s)) == each_once(s),
    decreases s.len(),
{
    let all = top + server_lines(s);
    if s.len() == 0 {
        assert(all =~= top);
        assert(servers(all) =~= each_once(s));
    } else {
        let init = s.drop_last();
        let ip = s.last();
        lemma_servers_of_lines(top, init);
        ip_text_is_a_word(IpAddr::V4(ip));
        lemma_server_line_captured(v4_text(ip));
        v4_text_names_exactly_its_address(v4_text(ip), ip);
        assert(all.drop_last() =~= top + server_lines(init));
        assert(all.last() == server_line(v4_text(ip)));
    }
}

proof fn lemma_domains_of_lines(top: Seq<Seq<char>>, s: Seq<Ipv4Addr>)
    requires
        host_domains(top).len() == 0,
    ensures
        host_domains(top + server_lines(s)).len() == 0,
    decreases s.len(),
{
    let all = top + server_lines(s);
    if s.len() == 0 {
        assert(all =~= top);
    } else {
        let init = s.drop_last();
        lemma_domains_of_lines(top, init);
        ip_text_is_a_word(IpAddr::V4(s.last()));
        lemma_server_line_captured(v4_text(s.last()));
        assert(all.drop_last() =~= top + server_lines(init));
        assert(all.last() == server_line(v4_text(s.last())));
        reveal(Seq::filter);
    }
}

/// A daemon restarted while its own file is in place captures the servers that the file
/// falls back to, each once and without its own resolver, and the host's own search domains,
/// without the networks'. A search domain with a newline in it would be more than one line,
/// and is left out; one with white space in it is captured as its words.
pub proof fn our_own_file_is_captured_as_the_hosts(s: Seq<Ipv4Addr>, ds: Seq<Seq<char>>)
    requires
        forall|i: int| 0 <= i < ds.len() ==> !(#[trigger] ds[i]).contains('\n'),
    ensures
        servers(lines(rendered(v6_text(magic_v6()), s, ds))) == each_once(s),
        s.no_duplicates() ==> servers(lines(rendered(v6_text(magic_v6()), s, ds))) == s,
        host_domains(lines(rendered(v6_text(magic_v6()), s, ds))) == not_ours(
            words(join(ds, seq![' '])),
        ),
        (forall|i: int| 0 <= i < ds.len() ==> is_word(#[trigger] ds[i])) ==> host_domains(
            lines(rendered(v6_text(magic_v6()), s, ds)),
        ) == not_ours(ds),
{
    let a = v6_text(magic_v6());
    let two = seq![HEADER@, server_line(a)];
    v6_text_is_a_word(magic_v6());
    v6_text_names_its_address(magic_v6());
    lemma_rendered_lines(a, s, ds);
    lemma_header_captured();
    lemma_server_line_captured(a);
    reveal(Seq::filter);
    assert(two.drop_last() =~= seq![HEADER@]);
    assert(seq![HEADER@].drop_last() =~= seq![]);
    assert(servers(seq![HEADER@].drop_last()).len() == 0);
    assert(servers(seq![HEADER@]).len() == 0);
    assert(servers(two).len() == 0);
    assert(host_domains(seq![HEADER@].drop_last()).len() == 0);
    assert(not_ours(line_domains(HEADER@)).len() == 0);
    assert(host_domains(seq![HEADER@]).len() == 0);
    assert(host_domains(two).len() == 0);
    lemma_servers_of_lines(two, s);
    lemma_domains_of_lines(two, s);
    let ls = rendered_lines(a, s, ds);
    let found = words(join(ds, seq![' ']));
    if ds.len() == 0 {
        assert(found =~= seq![]);
        assert(host_domains(ls) =~= not_ours(found));
    } else {
        lemma_search_line_captured(ds);
        assert(ls.drop_last() =~= two + server_lines(s));
        assert(ls.last() == search_line(ds));
        assert(host_domains(ls) =~= not_ours(found));
    }
    if s.no_duplicates() {
        lemma_each_once(s);
    }
    if forall|i: int| 0 <= i < ds.len() ==> is_word(#[trigger] ds[i]) {
        lemma_words_of_joined(ds);
    }
}

/// A line names a server exactly where, but for white space, it is the word `nameserver`, a space
/// and the text of an IPv4 address.
pub proof fn a_line_names_the_server_behind_its_keyword(l: Seq<char>, ip: Ipv4Addr)
    ensures
        line_server(l) == Some(ip) <==> starts_with(trim(l), "nameserver "@) && trim(
            trim(l).skip("nameserver "@.len() as int),
        ) == v4_text(ip),
{
    if starts_with(trim(l), "nameserver "@) {
        v4_text_names_exactly_its_address(trim(trim(l).skip("nameserver "@.len() as int)), ip);
    }
}

/// The servers of a file are those that its lines name, each once and where it is first named.
pub proof fn servers_are_captured_where_they_first_stand(ls: Seq<Seq<char>>, l: Seq<char>, ip: Ipv4Addr)
    ensures
        servers(ls.push(l)) == (if line_server(l) is Some && !servers(ls).contains(line_server(l)->0) {
            servers(ls).push(line_server(l)->0)
        } else {
            servers(ls)
        }),
        servers(seq![]).len() == 0,
        servers(ls).contains(ip) <==> exists|k: int|
            0 <= k < ls.len() && line_server(#[trigger] ls[k]) == Some(ip),
    decreases ls.len(),
{
    assert(ls.push(l).drop_last() =~= ls);
    if ls.len() > 0 {
        let init = ls.drop_last();
        let last = ls.last();
        servers_are_captured_where_they_first_stand(init, last, ip);
        assert(init.push(last) =~= ls);
        let s = servers(init);
        if servers(ls).contains(ip) {
            let j = servers(ls).index_of(ip);
            if j < s.len() {
                assert(s[j] == ip);
                let k = choose|k: int|
                    0 <= k < init.len() && line_server(#[trigger] init[k]) == Some(ip);
                assert(ls[k] == init[k]);
            } else {
                assert(line_server(ls[ls.len() - 1]) == Some(ip));
            }
        }
        if exists|k: int| 0 <= k < ls.len() && line_server(#[trigger] ls[k]) == Some(ip) {
            let k = choose|k: int| 0 <= k < ls.len() && line_server(#[trigger] ls[k]) == Some(ip);
            if k < init.len() {
                assert(init[k] == ls[k]);
                assert(servers(ls)[s.index_of(ip)] == ip);
            } else if s.contains(ip) {
                assert(servers(ls)[s.index_of(ip)] == ip);
            } else {
                assert(servers(ls)[s.len() as int] == ip);
            }
        }
    }
}

/// The host's search domains are captured line by line, from `search` and from `domain` lines
/// alike: every word that is not `ray` and does not end in `.ray`, in order.
pub proof fn host_domains_are_captured_line_by_line(
    ls: Seq<Seq<char>>,
    l: Seq<char>,
    m: Seq<char>,
)
    ensures
        host_domains(ls.push(l)) == host_domains(ls) + host_domains(seq![l]),
        host_domains(seq![]).len() == 0,
        trim(l) == "search "@ + m || trim(l) == "domain "@ + m ==> host_domains(seq![l]) == words(
            m,
        ).filter(|d: Seq<char>| d != "ray"@ && !ends_with(d, ".ray"@)),
        !starts_with(trim(l), "search "@) && !starts_with(trim(l), "domain "@) ==> host_domains(
            seq![l],
        ).len() == 0,
{
    reveal(Seq::filter);
    reveal_strlit("search ");
    reveal_strlit("domain ");
    assert(ls.push(l).drop_last() =~= ls);
    assert(seq![l].drop_last() =~= seq![]);
    assert(host_domains(seq![l].drop_last()) =~= seq![]);
    assert(host_domains(seq![l]) =~= not_ours(line_domains(l)));
    let t = trim(l);
    if t == "search "@ + m {
        assert(t.take(7) =~= "search "@);
        assert(t.skip(7) =~= m);
        lemma_not_ours(words(m));
    } else if t == "domain "@ + m {
        assert(t.take(7) =~= "domain "@);
        assert(t.take(7)[0] == 'd');
        assert("search "@[0] == 's');
        assert(t.skip(7) =~= m);
        lemma_not_ours(words(m));
    }
}

proof fn lemma_not_ours(ds: Seq<Seq<char>>)
    ensures
        not_ours(ds) == ds.filter(|d: Seq<char>| d != "ray"@ && !ends_with(d, ".ray"@)),
    decreases ds.len(),
{
    reveal(Seq::filter);
    if ds.len() > 0 {
        lemma_not_ours(ds.drop_last());
        ours_are_ray_and_what_lies_under_it(ds.last());
    }
}

/// A takeover of a host without a `resolv.conf` makes no backup, and one that finds a backup
/// keeps it: only the host's own file is ever backed up.
pub proof fn only_the_hosts_file_is_backed_up(files: Map<ConfigFile, Seq<char>>, text: Seq<char>)
    ensures
        !files.dom().contains(ConfigFile::ResolvConf) || files.dom().contains(
            ConfigFile::ResolvConfBackup,
        ) ==> after_installs(files, seq![text]) == files.insert(ConfigFile::ResolvConf, text),
        after_revert(files) == (if files.dom().contains(ConfigFile::ResolvConfBackup) {
            files.insert(ConfigFile::ResolvConf, files[ConfigFile::ResolvConfBackup]).remove(
                ConfigFile::ResolvConfBackup,
            )
        } else {
            files
        }),
{
    let one = seq![text];
    assert(one.drop_last() =~= seq![]);
    assert(after_installs(files, one.drop_last()) == files);
    let write = FileStep::Write(ConfigFile::ResolvConf, text);
    lemma_steps(files, write, write);
    lemma_steps(
        files,
        FileStep::Copy { from: ConfigFile::ResolvConfBackup, to: ConfigFile::ResolvConf },
        FileStep::Remove(ConfigFile::ResolvConfBackup),
    );
}

proof fn lemma_steps(
    files: Map<ConfigFile, Seq<char>>,
    a: FileStep<Seq<char>>,
    b: FileStep<Seq<char>>,
)
    ensures
        after_steps(files, seq![a, b]) == after_step(after_step(files, a), b),
        after_steps(files, seq![a]) == after_step(files, a),
        after_steps(files, seq![]) == files,
{
    assert(seq![a, b].drop_last() =~= seq![a]);
    assert(seq![a].drop_last() =~= seq![]);
    assert(after_steps(files, seq![a].drop_last()) == files);
    assert(after_steps(files, seq![a]) == after_step(files, a));
}

/// What an adapter reports is read one by one: a text that is an IPv4 address gives it, and any
/// other gives nothing.
pub proof fn reported_servers_are_read_one_by_one(ts: Seq<Seq<char>>, t: Seq<char>, ip: Ipv4Addr)
    ensures
        t == v4_text(ip) ==> addresses(ts.push(t)) == addresses(ts).push(ip),
        (forall|x: Ipv4Addr| t != #[trigger] v4_text(x)) ==> addresses(ts.push(t)) == addresses(ts),
        addresses(seq![]).len() == 0,
{
    assert(ts.push(t).drop_last() =~= ts);
    v4_text_names_exactly_its_address(t, ip);
    if read_v4(t) is Some {
        v4_text_names_exactly_its_address(t, read_v4(t)->0);
    }
}

} // verus!
