//! `/etc/resolv.conf`: what the host's file says, and the file that routes `.ray` to the
//! mesh resolver.

use vstd::prelude::*;

use crate::addr::{
    ip_text, is_ip, names_ip, read_v4, read_v6, v4_text, v6_text, IpAddr, Ipv4Addr,
};
use crate::dns::resolv_laws::lemma_header;
use crate::dns::search::{join_domains, listed, names, ours, SearchDomain};
use crate::dns::{magic_dns_v4, magic_dns_v6, magic_v4, magic_v6, resolver_addr, DNS_DOMAIN};
use crate::text::{
    join, join_texts, lines, lines_of, list_contains, starts_with, text_eq, text_starts_with,
    text_strip_prefix, text_trim, texts, trim, words, words_of,
};
use crate::text_lemmas::lemma_lines_first;

verus! {

/// How a line that marks a file as ours begins.
pub const MARKER: &'static str = "# Added by rayfish";

/// The first line of every file of ours.
pub const HEADER: &'static str = "# Added by rayfish - do not edit";

/// How many `nameserver` lines the C library reads.
pub const MAX_NAMESERVERS: usize = 3;

/// How many search domains the resolver reads.
pub const MAX_SEARCH_DOMAINS: usize = 6;

/// Whether a line marks its file as ours.
pub open spec fn marker_line(l: Seq<char>) -> bool {
    starts_with(trim(l), MARKER@)
}

/// The value of a `nameserver` line. Any run of white space separates the keyword from it.
pub open spec fn server_text(l: Seq<char>) -> Option<Seq<char>> {
    let w = words(l);
    if w.len() >= 2 && w[0] == "nameserver"@ {
        Some(w[1])
    } else {
        None
    }
}

/// The upstream that a line names: an IPv4 nameserver other than our own.
pub open spec fn upstream(l: Seq<char>) -> Option<Ipv4Addr> {
    match server_text(l) {
        Some(a) => match read_v4(a) {
            Some(ip) => if ip == magic_v4() {
                None
            } else {
                Some(ip)
            },
            None => None,
        },
        None => None,
    }
}

/// The upstreams that the lines `ls` name, in order.
pub open spec fn upstreams(ls: Seq<Seq<char>>) -> Seq<Ipv4Addr>
    decreases ls.len(),
{
    if ls.len() == 0 {
        seq![]
    } else {
        match upstream(ls.last()) {
            Some(ip) => upstreams(ls.drop_last()).push(ip),
            None => upstreams(ls.drop_last()),
        }
    }
}

/// The text of the first nameserver address, of either family, that the lines `ls` name.
pub open spec fn first_server(ls: Seq<Seq<char>>) -> Option<Seq<char>>
    decreases ls.len(),
{
    if ls.len() == 0 {
        None
    } else {
        match server_text(ls[0]) {
            Some(a) if is_ip(a) => Some(a),
            _ => first_server(ls.drop_first()),
        }
    }
}

/// Whether some line marks the file as ours.
pub open spec fn marked(ls: Seq<Seq<char>>) -> bool {
    exists|i: int| 0 <= i < ls.len() && marker_line(#[trigger] ls[i])
}

/// Whether an address lies in `100.64.0.0/10`, the range that overlay networks take their
/// addresses from.
pub open spec fn in_overlay_range(ip: Ipv4Addr) -> bool {
    ip.a == 100 && 64 <= ip.b < 128
}

/// The first of the addresses that lies in the overlay range.
pub open spec fn first_overlay(s: Seq<Ipv4Addr>) -> Option<Ipv4Addr>
    decreases s.len(),
{
    if s.len() == 0 {
        None
    } else if in_overlay_range(s[0]) {
        Some(s[0])
    } else {
        first_overlay(s.drop_first())
    }
}

/// Whether a line hands the host our own resolver, under its present or its earlier
/// address.
pub open spec fn our_server(l: Seq<char>) -> bool {
    match server_text(l) {
        Some(a) => read_v4(a) == Some(magic_v4()) || (read_v4(a) is None && read_v6(a) == Some(
            magic_v6(),
        )),
        None => false,
    }
}

/// The domains of a `search` line; none for any other line.
pub open spec fn search_words(l: Seq<char>) -> Seq<Seq<char>> {
    let w = words(l);
    if w.len() > 0 && w[0] == "search"@ {
        w.drop_first()
    } else {
        seq![]
    }
}

/// Those of the domains that are the host's own.
pub open spec fn host_only(ds: Seq<Seq<char>>) -> Seq<Seq<char>>
    decreases ds.len(),
{
    if ds.len() == 0 {
        seq![]
    } else if ours(ds.last()) {
        host_only(ds.drop_last())
    } else {
        host_only(ds.drop_last()).push(ds.last())
    }
}

/// What remains of a line once our entries are out of it: nothing of a marker or of our
/// nameserver, the host's domains of a `search` line, any other line as it is.
pub open spec fn without_ours(l: Seq<char>) -> Option<Seq<char>> {
    let ds = search_words(l);
    let kept = host_only(ds);
    if marker_line(l) || our_server(l) {
        None
    } else if kept.len() == ds.len() {
        Some(l)
    } else if kept.len() == 0 {
        None
    } else {
        Some("search "@ + join(kept, seq![' ']))
    }
}

/// What remains of the lines `ls` once our entries are out of them.
pub open spec fn kept_lines(ls: Seq<Seq<char>>) -> Seq<Seq<char>>
    decreases ls.len(),
{
    if ls.len() == 0 {
        seq![]
    } else {
        match without_ours(ls.last()) {
            Some(l) => kept_lines(ls.drop_last()).push(l),
            None => kept_lines(ls.drop_last()),
        }
    }
}

/// The file `c` without our entries. A file that holds none is left exactly as it is.
pub open spec fn stripped(c: Seq<char>) -> Seq<char> {
    if kept_lines(lines(c)) == lines(c) {
        c
    } else {
        join(kept_lines(lines(c)), seq!['\n']).push('\n')
    }
}

fn server_word(line: &str) -> (r: Option<String>)
    ensures
        r is Some <==> server_text(line@) is Some,
        r is Some ==> r->0@ == server_text(line@)->0,
{
    let w: Vec<String> = words_of(line);
    assert(w@.len() == texts(w@).len());
    if w.len() >= 2 && text_eq(w[0].as_str(), "nameserver") {
        assert(texts(w@)[0] == w@[0]@ && texts(w@)[1] == w@[1]@);
        Some(w[1].clone())
    } else {
        assert(w@.len() >= 2 ==> texts(w@)[0] == w@[0]@);
        None
    }
}

fn line_upstream(line: &str) -> (r: Option<Ipv4Addr>)
    ensures
        r == upstream(line@),
{
    match server_word(line) {
        Some(a) => match Ipv4Addr::parse(a.as_str()) {
            Some(ip) => if ip == magic_dns_v4() {
                None
            } else {
                Some(ip)
            },
            None => None,
        },
        None => None,
    }
}

/// The IPv4 nameservers of a `resolv.conf`, in order, without our own.
pub fn parse_resolv_nameservers(contents: &str) -> (r: Vec<Ipv4Addr>)
    ensures
        r@ == upstreams(lines(contents@)),
{
    let ls: Vec<String> = lines_of(contents);
    let mut out: Vec<Ipv4Addr> = Vec::new();
    let mut i: usize = 0;
    while i < ls.len()
        invariant
            i <= ls@.len(),
            out@ == upstreams(texts(ls@).take(i as int)),
        decreases ls@.len() - i,
    {
        proof {
            let next = texts(ls@).take(i + 1);
            assert(next.drop_last() =~= texts(ls@).take(i as int));
            assert(next.last() == ls@[i as int]@);
        }
        match line_upstream(ls[i].as_str()) {
            Some(ip) => {
                out.push(ip);
            },
            None => {},
        }
        i = i + 1;
    }
    assert(texts(ls@).take(i as int) =~= texts(ls@));
    out
}

/// The nameserver that the C library asks: the first one, whatever its family.
pub fn first_nameserver(contents: &str) -> (r: Option<IpAddr>)
    ensures
        r is Some <==> first_server(lines(contents@)) is Some,
        r is Some ==> names_ip(first_server(lines(contents@))->0, r->0),
{
    let ls: Vec<String> = lines_of(contents);
    let mut i: usize = 0;
    assert(texts(ls@).skip(0) =~= texts(ls@));
    while i < ls.len()
        invariant
            i <= ls@.len(),
            texts(ls@) == lines(contents@),
            first_server(texts(ls@).skip(i as int)) == first_server(texts(ls@)),
        decreases ls@.len() - i,
    {
        proof {
            let rest = texts(ls@).skip(i as int);
            assert(rest[0] == ls@[i as int]@);
            assert(rest.drop_first() =~= texts(ls@).skip(i + 1));
        }
        match server_word(ls[i].as_str()) {
            Some(a) => {
                let ip: Option<IpAddr> = IpAddr::parse(a.as_str());
                if ip.is_some() {
                    return ip;
                }
            },
            None => {},
        }
        i = i + 1;
    }
    assert(texts(ls@).skip(i as int).len() == 0);
    None
}

/// Whether this daemon wrote the file: it carries our marker.
pub fn resolv_conf_is_ours(contents: &str) -> (r: bool)
    ensures
        r == marked(lines(contents@)),
{
    let ls: Vec<String> = lines_of(contents);
    let mut i: usize = 0;
    while i < ls.len()
        invariant
            i <= ls@.len(),
            texts(ls@) == lines(contents@),
            forall|j: int| 0 <= j < i ==> !marker_line(#[trigger] texts(ls@)[j]),
        decreases ls@.len() - i,
    {
        assert(texts(ls@)[i as int] == ls@[i as int]@);
        if text_starts_with(text_trim(ls[i].as_str()).as_str(), MARKER) {
            return true;
        }
        i = i + 1;
    }
    false
}

/// The resolver of another overlay network that the file names, whoever wrote the file.
pub fn other_overlay_resolver(contents: &str) -> (r: Option<Ipv4Addr>)
    ensures
        r == first_overlay(upstreams(lines(contents@))),
{
    let s: Vec<Ipv4Addr> = parse_resolv_nameservers(contents);
    let mut i: usize = 0;
    assert(s@.skip(0) =~= s@);
    while i < s.len()
        invariant
            i <= s@.len(),
            s@ == upstreams(lines(contents@)),
            first_overlay(s@.skip(i as int)) == first_overlay(s@),
        decreases s@.len() - i,
    {
        proof {
            assert(s@.skip(i as int)[0] == s@[i as int]);
            assert(s@.skip(i as int).drop_first() =~= s@.skip(i + 1));
        }
        let ip: Ipv4Addr = s[i];
        if ip.a == 100 && 64 <= ip.b && ip.b < 128 {
            return Some(ip);
        }
        i = i + 1;
    }
    assert(s@.skip(i as int).len() == 0);
    None
}

/// What `foreign_mesh_resolver` answers for the lines `ls`.
pub open spec fn foreign_resolver(ls: Seq<Seq<char>>) -> Option<Ipv4Addr> {
    if marked(ls) {
        None
    } else {
        first_overlay(upstreams(ls))
    }
}

/// The resolver of another overlay network that took the file over; none where the file is
/// ours.
pub fn foreign_mesh_resolver(contents: &str) -> (r: Option<Ipv4Addr>)
    ensures
        r == foreign_resolver(lines(contents@)),
{
    if resolv_conf_is_ours(contents) {
        None
    } else {
        other_overlay_resolver(contents)
    }
}

/// What to do about a `resolv.conf` that may no longer be ours.
#[derive(Clone, Copy, Debug, PartialEq, Eq, Structural)]
pub enum Reassert {
    /// The file is ours: nothing to do.
    Held,
    /// Overwritten by something that will not fight back: write ours again.
    Rewrite,
    /// Another overlay network took the file: put ours on top of theirs.
    Merge(Ipv4Addr),
    /// The overlay network that shared the file is gone: capture the host's servers anew.
    Reclaim,
}

/// The answer to a file with the lines `ls`, shared with `merged_with` until now.
pub open spec fn reassert_for(ls: Seq<Seq<char>>, merged_with: Option<Ipv4Addr>) -> Reassert {
    if marked(ls) {
        Reassert::Held
    } else {
        match (first_overlay(upstreams(ls)), merged_with) {
            (Some(ip), _) => Reassert::Merge(ip),
            (None, Some(_)) => Reassert::Reclaim,
            (None, None) => Reassert::Rewrite,
        }
    }
}

/// What to do about the file: keep it, rewrite it, merge with another overlay network, or
/// capture the host's servers anew.
pub fn reassert_decision(contents: &str, merged_with: Option<Ipv4Addr>) -> (r: Reassert)
    ensures
        r == reassert_for(lines(contents@), merged_with),
{
    if resolv_conf_is_ours(contents) {
        return Reassert::Held;
    }
    match (other_overlay_resolver(contents), merged_with) {
        (Some(ip), _) => Reassert::Merge(ip),
        (None, Some(_)) => Reassert::Reclaim,
        (None, None) => Reassert::Rewrite,
    }
}

/// Whether the address is one of systemd-resolved's stub listeners.
pub open spec fn is_stub(ip: Ipv4Addr) -> bool {
    ip.a == 127 && ip.b == 0 && ip.c == 0 && (ip.d == 53 || ip.d == 54)
}

/// Whether the file points the C library at systemd-resolved's stub.
pub fn resolv_conf_points_at_resolved(contents: &str) -> (r: bool)
    ensures
        r == (exists|i: int|
            0 <= i < upstreams(lines(contents@)).len() && is_stub(
                #[trigger] upstreams(lines(contents@))[i],
            )),
        r == (upstreams(lines(contents@)).contains(Ipv4Addr { a: 127, b: 0, c: 0, d: 53 })
            || upstreams(lines(contents@)).contains(Ipv4Addr { a: 127, b: 0, c: 0, d: 54 })),
{
    let s: Vec<Ipv4Addr> = parse_resolv_nameservers(contents);
    let mut i: usize = 0;
    while i < s.len()
        invariant
            i <= s@.len(),
            s@ == upstreams(lines(contents@)),
            forall|j: int| 0 <= j < i ==> !is_stub(#[trigger] s@[j]),
        decreases s@.len() - i,
    {
        let ip: Ipv4Addr = s[i];
        if ip.a == 127 && ip.b == 0 && ip.c == 0 && (ip.d == 53 || ip.d == 54) {
            assert(is_stub(upstreams(lines(contents@))[i as int]));
            assert(s@.contains(ip));
            return true;
        }
        i = i + 1;
    }
    false
}

/// The modules of a `hosts:` line of `nsswitch.conf`; none for any other line.
pub open spec fn host_modules(l: Seq<char>) -> Seq<Seq<char>> {
    if starts_with(trim(l), "hosts:"@) {
        words(trim(l).skip("hosts:"@.len() as int))
    } else {
        seq![]
    }
}

/// Whether `nsswitch.conf` has the C library ask systemd-resolved directly: `resolve` is one
/// of the modules of its `hosts:` line.
pub fn nsswitch_uses_resolve(contents: &str) -> (r: bool)
    ensures
        r == (exists|i: int|
            0 <= i < lines(contents@).len() && host_modules(
                #[trigger] lines(contents@)[i],
            ).contains("resolve"@)),
{
    let ls: Vec<String> = lines_of(contents);
    let mut i: usize = 0;
    while i < ls.len()
        invariant
            i <= ls@.len(),
            texts(ls@) == lines(contents@),
            forall|j: int|
                0 <= j < i ==> !host_modules(#[trigger] lines(contents@)[j]).contains("resolve"@),
        decreases ls@.len() - i,
    {
        assert(lines(contents@)[i as int] == ls@[i as int]@);
        match text_strip_prefix(text_trim(ls[i].as_str()).as_str(), "hosts:") {
            Some(rest) => {
                let modules: Vec<String> = words_of(rest.as_str());
                if list_contains(&modules, "resolve") {
                    return true;
                }
            },
            None => {},
        }
        i = i + 1;
    }
    false
}

fn line_is_our_server(line: &str) -> (r: bool)
    ensures
        r == our_server(line@),
{
    match server_word(line) {
        Some(a) => match IpAddr::parse(a.as_str()) {
            Some(IpAddr::V4(v4)) => v4 == magic_dns_v4(),
            Some(IpAddr::V6(v6)) => {
                let m = magic_dns_v6();
                let same: bool = v6.segments[0] == m.segments[0] && v6.segments[1] == m.segments[1]
                    && v6.segments[2] == m.segments[2] && v6.segments[3] == m.segments[3]
                    && v6.segments[4] == m.segments[4] && v6.segments[5] == m.segments[5]
                    && v6.segments[6] == m.segments[6] && v6.segments[7] == m.segments[7];
                assert(same ==> v6.segments@ =~= magic_v6());
                same
            },
            None => false,
        },
        None => false,
    }
}

/// What remains of a line once our entries are out of it.
fn strip_line(line: &str) -> (r: Option<String>)
    ensures
        r is Some <==> without_ours(line@) is Some,
        r is Some ==> r->0@ == without_ours(line@)->0,
{
    if text_starts_with(text_trim(line).as_str(), MARKER) || line_is_our_server(line) {
        return None;
    }
    let w: Vec<String> = words_of(line);
    let ghost ds = search_words(line@);
    assert(w@.len() == texts(w@).len());
    assert(w@.len() > 0 ==> texts(w@)[0] == w@[0]@);
    if w.len() == 0 || !text_eq(w[0].as_str(), "search") {
        assert(ds.len() == 0);
        return Some(line.to_owned());
    }
    assert(ds =~= texts(w@).skip(1));
    let mut kept: Vec<String> = Vec::new();
    let mut i: usize = 1;
    while i < w.len()
        invariant
            1 <= i <= w@.len(),
            ds == texts(w@).skip(1),
            texts(kept@) == host_only(ds.take(i - 1)),
        decreases w@.len() - i,
    {
        let ghost before = kept@;
        let d = SearchDomain::from_host(w[i].as_str());
        proof {
            let next = ds.take(i as int);
            assert(next.drop_last() =~= ds.take(i - 1));
            assert(next.last() == w@[i as int]@);
        }
        if !d.is_ours() {
            kept.push(w[i].clone());
            assert(texts(kept@) =~= texts(before).push(w@[i as int]@));
        }
        i = i + 1;
    }
    assert(ds.take(i - 1) =~= ds);
    assert(kept@.len() == texts(kept@).len());
    if kept.len() == w.len() - 1 {
        Some(line.to_owned())
    } else if kept.len() == 0 {
        None
    } else {
        let mut out = String::new();
        out.push_str("search ");
        out.push_str(join_texts(&kept, " ").as_str());
        proof {
            reveal_strlit(" ");
            assert(" "@ =~= seq![' ']);
            assert(out@ =~= "search "@ + join(texts(kept@), seq![' ']));
        }
        Some(out)
    }
}

/// Whether the two lists hold the same texts.
fn same_texts(a: &Vec<String>, b: &Vec<String>) -> (r: bool)
    ensures
        r == (texts(a@) == texts(b@)),
{
    assert(texts(a@).len() == a@.len() && texts(b@).len() == b@.len());
    if a.len() != b.len() {
        return false;
    }
    let mut i: usize = 0;
    while i < a.len()
        invariant
            i <= a@.len(),
            a@.len() == b@.len(),
            forall|j: int| 0 <= j < i ==> texts(a@)[j] == texts(b@)[j],
        decreases a@.len() - i,
    {
        if !text_eq(a[i].as_str(), b[i].as_str()) {
            assert(texts(a@)[i as int] != texts(b@)[i as int]);
            return false;
        }
        i = i + 1;
    }
    assert(texts(a@) =~= texts(b@));
    true
}

/// The file without our entries: our marker, our nameserver and our search domains gone,
/// everything else as it was. A file that holds nothing of ours is left exactly as found.
pub fn strip_our_resolv_entries(contents: &str) -> (r: String)
    ensures
        r@ == stripped(contents@),
{
    let ls: Vec<String> = lines_of(contents);
    let mut kept: Vec<String> = Vec::new();
    let mut i: usize = 0;
    while i < ls.len()
        invariant
            i <= ls@.len(),
            texts(kept@) == kept_lines(texts(ls@).take(i as int)),
        decreases ls@.len() - i,
    {
        let ghost before = kept@;
        proof {
            let next = texts(ls@).take(i + 1);
            assert(next.drop_last() =~= texts(ls@).take(i as int));
            assert(next.last() == ls@[i as int]@);
        }
        match strip_line(ls[i].as_str()) {
            Some(l) => {
                kept.push(l);
                assert(texts(kept@) =~= texts(before).push(l@));
            },
            None => {},
        }
        i = i + 1;
    }
    assert(texts(ls@).take(i as int) =~= texts(ls@));
    if same_texts(&kept, &ls) {
        return contents.to_owned();
    }
    let mut out = join_texts(&kept, "\n");
    out.push('\n');
    proof {
        reveal_strlit("\n");
        assert("\n"@ =~= seq!['\n']);
    }
    out
}

/// A `nameserver` line with its newline.
pub open spec fn server_entry(a: Seq<char>) -> Seq<char> {
    "nameserver "@ + a + seq!['\n']
}

/// A `nameserver` line for each of the addresses.
pub open spec fn server_entries(s: Seq<Ipv4Addr>) -> Seq<char>
    decreases s.len(),
{
    if s.len() == 0 {
        seq![]
    } else {
        server_entries(s.drop_last()) + server_entry(v4_text(s.last()))
    }
}

/// The `search` line with its newline; nothing where there is no domain.
pub open spec fn search_entry(ds: Seq<Seq<char>>) -> Seq<char> {
    if ds.len() == 0 {
        seq![]
    } else {
        "search "@ + join(ds, seq![' ']) + seq!['\n']
    }
}

/// A file of ours: the header, our resolver first, then the servers `s`, then the search
/// domains `ds`.
pub open spec fn rendered(resolver: Seq<char>, s: Seq<Ipv4Addr>, ds: Seq<Seq<char>>) -> Seq<char> {
    HEADER@ + seq!['\n'] + server_entry(resolver) + server_entries(s) + search_entry(ds)
}

/// Renders a file of ours with every server of `servers` up to `limit`.
pub fn render_resolv_conf(
    resolver: IpAddr,
    servers: &[Ipv4Addr],
    limit: usize,
    search: &[SearchDomain],
) -> (r: String)
    ensures
        r@ == rendered(
            ip_text(resolver),
            servers@.take(if limit <= servers@.len() {
                limit as int
            } else {
                servers@.len() as int
            }),
            names(search@),
        ),
{
    let count: usize = if limit <= servers.len() {
        limit
    } else {
        servers.len()
    };
    let mut out = String::new();
    out.push_str(HEADER);
    out.push('\n');
    out.push_str("nameserver ");
    out.push_str(resolver.to_text().as_str());
    out.push('\n');
    let ghost top = HEADER@ + seq!['\n'] + server_entry(ip_text(resolver));
    assert(out@ =~= top);
    let mut i: usize = 0;
    while i < count
        invariant
            i <= count <= servers@.len(),
            out@ == top + server_entries(servers@.take(i as int)),
        decreases count - i,
    {
        let ghost before = out@;
        out.push_str("nameserver ");
        out.push_str(servers[i].to_text().as_str());
        out.push('\n');
        proof {
            let next = servers@.take(i + 1);
            assert(next.drop_last() =~= servers@.take(i as int));
            assert(out@ =~= before + server_entry(v4_text(next.last())));
            assert(out@ =~= top + server_entries(next));
        }
        i = i + 1;
    }
    let ghost body = out@;
    assert(names(search@).len() == search@.len());
    if search.len() > 0 {
        out.push_str("search ");
        out.push_str(join_domains(search).as_str());
        out.push('\n');
    }
    assert(out@ =~= body + search_entry(names(search@)));
    out
}

/// The servers that fit into a file of ours after our own.
pub open spec fn fallbacks(s: Seq<Ipv4Addr>) -> Seq<Ipv4Addr> {
    s.take(if s.len() < MAX_NAMESERVERS - 1 {
        s.len() as int
    } else {
        MAX_NAMESERVERS - 1
    })
}

/// A file of ours that names `resolver` first, then as many of `servers` as the C library
/// reads.
pub fn render_direct_resolv_conf_with(
    resolver: IpAddr,
    search: &[SearchDomain],
    servers: &[Ipv4Addr],
) -> (r: String)
    ensures
        r@ == rendered(ip_text(resolver), fallbacks(servers@), names(search@)),
{
    render_resolv_conf(resolver, servers, MAX_NAMESERVERS - 1, search)
}

/// A file of ours that names the mesh resolver first.
pub fn render_direct_resolv_conf(search: &[SearchDomain], servers: &[Ipv4Addr]) -> (r: String)
    ensures
        r@ == rendered(v6_text(magic_v6()), fallbacks(servers@), names(search@)),
{
    render_direct_resolv_conf_with(resolver_addr(), search, servers)
}

/// The drop-in that has NetworkManager leave `resolv.conf` alone. It carries our marker, so
/// that only a file of ours is ever removed again.
pub fn nm_dns_none_dropin() -> (r: String)
    ensures
        r@ == HEADER@ + "\n[main]\ndns=none\n"@,
        marked(lines(r@)),
{
    let mut out = String::new();
    out.push_str(HEADER);
    out.push_str("\n[main]\ndns=none\n");
    assert(out@ =~= HEADER@ + "\n[main]\ndns=none\n"@);
    proof {
        reveal_strlit("\n[main]\ndns=none\n");
        let rest = "\n[main]\ndns=none\n"@.skip(1);
        lemma_header();
        assert(out@ =~= HEADER@ + seq!['\n'] + rest);
        lemma_lines_first(HEADER@, rest);
        assert(lines(out@)[0] == HEADER@);
    }
    out
}

/// What quieting NetworkManager did to the upstreams.
#[derive(Debug, PartialEq, Eq)]
pub enum NmQuietOutcome {
    /// Nothing stopped answering.
    Proceed,
    /// These stopped answering, and others or the operator's own servers remain.
    Degraded(Vec<Ipv4Addr>),
    /// Every upstream stopped answering: taking the file over would leave the host without
    /// DNS.
    Abort,
}

/// Those of the servers `before` that are not among `after`, in order.
pub open spec fn died(before: Seq<Ipv4Addr>, after: Seq<Ipv4Addr>) -> Seq<Ipv4Addr>
    decreases before.len(),
{
    if before.len() == 0 {
        seq![]
    } else if after.contains(before.last()) {
        died(before.drop_last(), after)
    } else {
        died(before.drop_last(), after).push(before.last())
    }
}

proof fn lemma_died(before: Seq<Ipv4Addr>, after: Seq<Ipv4Addr>)
    ensures
        forall|ip: Ipv4Addr| #[trigger]
            died(before, after).contains(ip) <==> before.contains(ip) && !after.contains(ip),
        died(before, after).len() == 0 <==> forall|i: int|
            0 <= i < before.len() ==> after.contains(#[trigger] before[i]),
    decreases before.len(),
{
    if before.len() > 0 {
        let init = before.drop_last();
        let last = before.last();
        lemma_died(init, after);
        let d = died(init, after);
        assert(before =~= init.push(last));
        assert forall|ip: Ipv4Addr| #[trigger]
            died(before, after).contains(ip) <==> before.contains(ip) && !after.contains(ip) by {
            assert(before.contains(ip) <==> init.contains(ip) || ip == last) by {
                if init.contains(ip) {
                    assert(before[init.index_of(ip)] == ip);
                }
                if ip == last {
                    assert(before[before.len() - 1] == ip);
                }
            }
            assert(d.push(last).contains(ip) <==> d.contains(ip) || ip == last) by {
                if d.contains(ip) {
                    assert(d.push(last)[d.index_of(ip)] == ip);
                }
                if ip == last {
                    assert(d.push(last)[d.len() as int] == ip);
                }
            }
            assert(d.contains(ip) <==> init.contains(ip) && !after.contains(ip));
        }
        if died(before, after).len() == 0 {
            assert forall|i: int| 0 <= i < before.len() implies after.contains(
                #[trigger] before[i],
            ) by {
                assert(before.contains(before[i]));
                if !after.contains(before[i]) {
                    assert(died(before, after).contains(before[i]));
                }
            }
        } else {
            let x = died(before, after)[0];
            assert(died(before, after).contains(x));
            assert(!after.contains(before[before.index_of(x)]));
        }
    }
}

/// Those of the servers `before` that are not among `after`, in order.
pub fn servers_lost(before: &[Ipv4Addr], after: &[Ipv4Addr]) -> (r: Vec<Ipv4Addr>)
    ensures
        r@ == died(before@, after@),
{
    let mut dead: Vec<Ipv4Addr> = Vec::new();
    let mut i: usize = 0;
    while i < before.len()
        invariant
            i <= before@.len(),
            dead@ == died(before@.take(i as int), after@),
        decreases before@.len() - i,
    {
        proof {
            let next = before@.take(i + 1);
            assert(next.drop_last() =~= before@.take(i as int));
        }
        let ip: Ipv4Addr = before[i];
        if !server_among(after, ip) {
            dead.push(ip);
        }
        i = i + 1;
    }
    assert(before@.take(i as int) =~= before@);
    dead
}

/// Whether `ip` is one of `servers`.
pub fn server_among(servers: &[Ipv4Addr], ip: Ipv4Addr) -> (r: bool)
    ensures
        r == servers@.contains(ip),
{
    let mut i: usize = 0;
    while i < servers.len()
        invariant
            i <= servers@.len(),
            forall|j: int| 0 <= j < i ==> servers@[j] != ip,
        decreases servers@.len() - i,
    {
        if servers[i] == ip {
            return true;
        }
        i = i + 1;
    }
    false
}

/// Judges a quieted NetworkManager by which upstreams answered before it and after it. An
/// operator who named their own servers always has somewhere to forward to.
pub fn nm_quiet_outcome(
    before: &[Ipv4Addr],
    after: &[Ipv4Addr],
    operator_upstreams: bool,
) -> (r: NmQuietOutcome)
    ensures
        match r {
            NmQuietOutcome::Proceed => died(before@, after@).len() == 0,
            NmQuietOutcome::Abort => died(before@, after@).len() > 0 && after@.len() == 0
                && !operator_upstreams,
            NmQuietOutcome::Degraded(dead) => dead@ == died(before@, after@) && dead@.len() > 0 && (
            after@.len() > 0 || operator_upstreams),
        },
        r is Proceed <==> forall|i: int|
            0 <= i < before@.len() ==> after@.contains(#[trigger] before@[i]),
        r is Abort ==> before@.len() > 0 && after@.len() == 0 && !operator_upstreams,
        before@.len() > 0 && after@.len() == 0 && !operator_upstreams ==> r is Abort,
        r matches NmQuietOutcome::Degraded(dead) ==> forall|ip: Ipv4Addr| #[trigger]
            dead@.contains(ip) <==> before@.contains(ip) && !after@.contains(ip),
{
    proof {
        lemma_died(before@, after@);
    }
    let dead: Vec<Ipv4Addr> = servers_lost(before, after);
    if dead.len() == 0 {
        NmQuietOutcome::Proceed
    } else if after.len() == 0 && !operator_upstreams {
        NmQuietOutcome::Abort
    } else {
        NmQuietOutcome::Degraded(dead)
    }
}

/// The texts `ds`, each where it first stands and nowhere else.
pub open spec fn distinct(ds: Seq<Seq<char>>) -> Seq<Seq<char>>
    decreases ds.len(),
{
    if ds.len() == 0 {
        seq![]
    } else {
        let init = distinct(ds.drop_last());
        if init.contains(ds.last()) {
            init
        } else {
            init.push(ds.last())
        }
    }
}

/// The search list that serves both the host and the mesh: the host's own domains first,
/// then ours, each once, and no more than the resolver reads. Where the list is cut, the
/// catch-all keeps the last place.
pub open spec fn merged_domains(host: Seq<Seq<char>>, mesh: Seq<Seq<char>>) -> Seq<Seq<char>> {
    let all = distinct(host + mesh);
    let cut = all.take(MAX_SEARCH_DOMAINS as int);
    if all.len() <= MAX_SEARCH_DOMAINS {
        all
    } else if all.contains(DNS_DOMAIN@) && !cut.contains(DNS_DOMAIN@) {
        all.take(MAX_SEARCH_DOMAINS - 1).push(DNS_DOMAIN@)
    } else {
        cut
    }
}

/// The texts of search domains that say which of them the host had.
pub open spec fn said(ds: Seq<(Seq<char>, bool)>) -> Seq<Seq<char>> {
    Seq::new(ds.len(), |i: int| ds[i].0)
}

/// The search domains `ds`, each where its text first stands and nowhere else.
pub open spec fn distinct_listed(ds: Seq<(Seq<char>, bool)>) -> Seq<(Seq<char>, bool)>
    decreases ds.len(),
{
    if ds.len() == 0 {
        seq![]
    } else {
        let init = distinct_listed(ds.drop_last());
        if said(init).contains(ds.last().0) {
            init
        } else {
            init.push(ds.last())
        }
    }
}

/// The search list that serves both the host and the mesh, with what the host had of it: a
/// domain that both have is the host's, and a catch-all that is put back is ours.
pub open spec fn merged_listed(
    host: Seq<(Seq<char>, bool)>,
    mesh: Seq<(Seq<char>, bool)>,
) -> Seq<(Seq<char>, bool)> {
    let all = distinct_listed(host + mesh);
    let cut = all.take(MAX_SEARCH_DOMAINS as int);
    if all.len() <= MAX_SEARCH_DOMAINS {
        all
    } else if said(all).contains(DNS_DOMAIN@) && !said(cut).contains(DNS_DOMAIN@) {
        all.take(MAX_SEARCH_DOMAINS - 1).push((DNS_DOMAIN@, false))
    } else {
        cut
    }
}

proof fn lemma_distinct_said(ds: Seq<(Seq<char>, bool)>)
    ensures
        said(distinct_listed(ds)) == distinct(said(ds)),
    decreases ds.len(),
{
    if ds.len() > 0 {
        lemma_distinct_said(ds.drop_last());
        assert(said(ds).drop_last() =~= said(ds.drop_last()));
        let init = distinct_listed(ds.drop_last());
        assert(said(init.push(ds.last())) =~= said(init).push(ds.last().0));
    } else {
        assert(said(distinct_listed(ds)) =~= distinct(said(ds)));
    }
}

/// Whichever of the domains the host had, the texts of the merged list are the merged texts.
pub proof fn merging_minds_only_the_texts(
    host: Seq<(Seq<char>, bool)>,
    mesh: Seq<(Seq<char>, bool)>,
)
    ensures
        said(merged_listed(host, mesh)) == merged_domains(said(host), said(mesh)),
{
    let all = distinct_listed(host + mesh);
    lemma_distinct_said(host + mesh);
    assert(said(host + mesh) =~= said(host) + said(mesh));
    if all.len() > MAX_SEARCH_DOMAINS {
        let cut = all.take(MAX_SEARCH_DOMAINS as int);
        let short = all.take(MAX_SEARCH_DOMAINS - 1);
        assert(said(cut) =~= said(all).take(MAX_SEARCH_DOMAINS as int));
        assert(said(short) =~= said(all).take(MAX_SEARCH_DOMAINS - 1));
        assert(said(short.push((DNS_DOMAIN@, false))) =~= said(short).push(DNS_DOMAIN@));
    }
}

/// Whether the list holds a domain with the text `d`.
fn domain_among(list: &Vec<SearchDomain>, limit: usize, d: &str) -> (r: bool)
    requires
        limit <= list@.len(),
    ensures
        r == names(list@).take(limit as int).contains(d@),
{
    let ghost seen = names(list@).take(limit as int);
    let mut i: usize = 0;
    while i < limit
        invariant
            i <= limit <= list@.len(),
            seen == names(list@).take(limit as int),
            forall|j: int| 0 <= j < i ==> seen[j] != d@,
        decreases limit - i,
    {
        if text_eq(list[i].as_str(), d) {
            assert(seen[i as int] == d@);
            return true;
        }
        i = i + 1;
    }
    false
}

fn push_distinct(
    all: &mut Vec<SearchDomain>,
    ds: &[SearchDomain],
    Ghost(before): Ghost<Seq<(Seq<char>, bool)>>,
)
    requires
        listed(old(all)@) == distinct_listed(before),
    ensures
        listed(final(all)@) == distinct_listed(before + listed(ds@)),
{
    let mut i: usize = 0;
    assert(before + listed(ds@).take(0) =~= before);
    while i < ds.len()
        invariant
            i <= ds@.len(),
            listed(all@) == distinct_listed(before + listed(ds@).take(i as int)),
        decreases ds@.len() - i,
    {
        let ghost prior = all@;
        proof {
            let next = before + listed(ds@).take(i + 1);
            assert(next.drop_last() =~= before + listed(ds@).take(i as int));
            assert(next.last() == listed(ds@)[i as int]);
            assert(names(all@).take(all@.len() as int) =~= said(listed(all@)));
        }
        if !domain_among(all, all.len(), ds[i].as_str()) {
            all.push(ds[i].clone());
            assert(listed(all@) =~= listed(prior).push(listed(ds@)[i as int]));
        }
        i = i + 1;
    }
    assert(listed(ds@).take(i as int) =~= listed(ds@));
}

/// The search list that serves both the host and the mesh. Each domain stays the host's or
/// ours, as it was handed in.
pub fn merge_search_domains(host: &[SearchDomain], mesh: &[SearchDomain]) -> (r: Vec<SearchDomain>)
    ensures
        listed(r@) == merged_listed(listed(host@), listed(mesh@)),
        names(r@) == merged_domains(names(host@), names(mesh@)),
{
    let mut all: Vec<SearchDomain> = Vec::new();
    let ghost none = Seq::<(Seq<char>, bool)>::empty();
    assert(listed(all@) =~= distinct_listed(none));
    push_distinct(&mut all, host, Ghost(none));
    assert(none + listed(host@) =~= listed(host@));
    push_distinct(&mut all, mesh, Ghost(listed(host@)));
    let ghost full = listed(all@);
    proof {
        merging_minds_only_the_texts(listed(host@), listed(mesh@));
        assert(said(listed(host@)) =~= names(host@));
        assert(said(listed(mesh@)) =~= names(mesh@));
    }
    if all.len() <= MAX_SEARCH_DOMAINS {
        assert(said(listed(all@)) =~= names(all@));
        return all;
    }
    let asked: bool = domain_among(&all, all.len(), DNS_DOMAIN);
    let survives: bool = domain_among(&all, MAX_SEARCH_DOMAINS, DNS_DOMAIN);
    assert(names(all@).take(all@.len() as int) =~= said(full));
    assert(names(all@).take(MAX_SEARCH_DOMAINS as int) =~= said(
        full.take(MAX_SEARCH_DOMAINS as int),
    ));
    if asked && !survives {
        all.truncate(MAX_SEARCH_DOMAINS - 1);
        let ghost five = all@;
        all.push(SearchDomain::root());
        assert(listed(five) =~= full.take(MAX_SEARCH_DOMAINS - 1));
        assert(listed(all@) =~= listed(five).push((DNS_DOMAIN@, false)));
    } else {
        all.truncate(MAX_SEARCH_DOMAINS);
        assert(listed(all@) =~= full.take(MAX_SEARCH_DOMAINS as int));
    }
    assert(said(listed(all@)) =~= names(all@));
    all
}

} // verus!
