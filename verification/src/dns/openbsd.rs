//! OpenBSD: taking over `/etc/resolv.conf` directly.
//!
//! OpenBSD has no resolver manager to hand `.ray` to, so the file is the one way in: capture
//! the live upstreams and search domains, back the file up, write ours, and restore it on
//! the way out.

use vstd::prelude::*;

use crate::addr::{read_v4, v6_text, Ipv4Addr};
use crate::dns::configurator::{copy_servers, DnsConfigurator};
use crate::dns::resolv_conf::{died, render_resolv_conf, rendered, server_among, servers_lost};
use crate::dns::search::{names, ours, SearchDomain};
use crate::dns::{magic_v6, resolver_addr};
use crate::files::{after_step, after_steps, steps_view, ConfigFile, FileStep};
use crate::text::{
    lines, lines_of, starts_with, text_strip_prefix, text_trim, texts, trim, words, words_of,
};

verus! {

/// The backup left beside `/etc/resolv.conf` while ours is in place.
pub fn backup_path() -> (r: String)
    ensures
        r@ == crate::files::file_path(ConfigFile::ResolvConfBackup, seq![]),
{
    ConfigFile::ResolvConfBackup.path("")
}

/// The address that a line names after the keyword `nameserver` and a space.
pub open spec fn line_server(l: Seq<char>) -> Option<Ipv4Addr> {
    let t = trim(l);
    if starts_with(t, "nameserver "@) {
        read_v4(trim(t.skip("nameserver "@.len() as int)))
    } else {
        None
    }
}

/// The nameservers that the lines `ls` name, in order, each once.
pub open spec fn servers(ls: Seq<Seq<char>>) -> Seq<Ipv4Addr>
    decreases ls.len(),
{
    if ls.len() == 0 {
        seq![]
    } else {
        let init = servers(ls.drop_last());
        match line_server(ls.last()) {
            Some(ip) => if init.contains(ip) {
                init
            } else {
                init.push(ip)
            },
            None => init,
        }
    }
}

fn line_nameserver(line: &str) -> (r: Option<Ipv4Addr>)
    ensures
        r == line_server(line@),
{
    match text_strip_prefix(text_trim(line).as_str(), "nameserver ") {
        Some(rest) => Ipv4Addr::parse(text_trim(rest.as_str()).as_str()),
        None => None,
    }
}

/// The nameservers a `resolv.conf` names, in order, each once.
pub fn parse_nameservers(contents: &str) -> (r: Vec<Ipv4Addr>)
    ensures
        r@ == servers(lines(contents@)),
{
    let ls: Vec<String> = lines_of(contents);
    let mut out: Vec<Ipv4Addr> = Vec::new();
    let mut i: usize = 0;
    while i < ls.len()
        invariant
            i <= ls@.len(),
            out@ == servers(texts(ls@).take(i as int)),
        decreases ls@.len() - i,
    {
        proof {
            let next = texts(ls@).take(i + 1);
            assert(next.drop_last() =~= texts(ls@).take(i as int));
            assert(next.last() == ls@[i as int]@);
        }
        match line_nameserver(ls[i].as_str()) {
            Some(ip) => {
                if !server_among(out.as_slice(), ip) {
                    out.push(ip);
                }
            },
            None => {},
        }
        i = i + 1;
    }
    assert(texts(ls@).take(i as int) =~= texts(ls@));
    out
}

/// The domains that a `search` or `domain` line names.
pub open spec fn line_domains(l: Seq<char>) -> Seq<Seq<char>> {
    let t = trim(l);
    if starts_with(t, "search "@) {
        words(t.skip("search "@.len() as int))
    } else if starts_with(t, "domain "@) {
        words(t.skip("domain "@.len() as int))
    } else {
        seq![]
    }
}

/// Those of the domains that are the host's own.
pub open spec fn not_ours(ds: Seq<Seq<char>>) -> Seq<Seq<char>> {
    ds.filter(|d: Seq<char>| !ours(d))
}

/// The host's own search domains that the lines `ls` name, in order.
pub open spec fn host_domains(ls: Seq<Seq<char>>) -> Seq<Seq<char>>
    decreases ls.len(),
{
    if ls.len() == 0 {
        seq![]
    } else {
        host_domains(ls.drop_last()) + not_ours(line_domains(ls.last()))
    }
}

fn push_host_domains(out: &mut Vec<SearchDomain>, ws: &Vec<String>)
    ensures
        names(final(out)@) == names(old(out)@) + not_ours(texts(ws@)),
        (forall|i: int| 0 <= i < old(out)@.len() ==> (#[trigger] old(out)@[i]).of_host()) ==> forall|
            i: int,
        |
            0 <= i < final(out)@.len() ==> (#[trigger] final(out)@[i]).of_host(),
{
    let ghost start = out@;
    let ghost before = names(out@);
    let mut i: usize = 0;
    proof {
        reveal(Seq::filter);
        assert(names(out@) =~= before + not_ours(texts(ws@).take(0)));
    }
    while i < ws.len()
        invariant
            i <= ws@.len(),
            names(out@) == before + not_ours(texts(ws@).take(i as int)),
            (forall|j: int| 0 <= j < start.len() ==> (#[trigger] start[j]).of_host()) ==> forall|
                j: int,
            |
                0 <= j < out@.len() ==> (#[trigger] out@[j]).of_host(),
        decreases ws@.len() - i,
    {
        let ghost prior = out@;
        let d = SearchDomain::from_host(ws[i].as_str());
        proof {
            reveal(Seq::filter);
            let next = texts(ws@).take(i + 1);
            assert(next.drop_last() =~= texts(ws@).take(i as int));
            assert(next.last() == ws@[i as int]@);
        }
        if !d.is_ours() {
            out.push(d);
            assert(names(out@) =~= names(prior).push(ws@[i as int]@));
        }
        assert(names(out@) =~= before + not_ours(texts(ws@).take(i + 1)));
        i = i + 1;
    }
    assert(texts(ws@).take(i as int) =~= texts(ws@));
}

/// The host's own search domains that a `resolv.conf` names. Ours are left out: they are
/// derived from the joined networks anew each time, and keeping the ones the file already
/// names would outlive a leave.
pub fn capture_search_domains(contents: &str) -> (r: Vec<SearchDomain>)
    ensures
        names(r@) == host_domains(lines(contents@)),
        forall|i: int| 0 <= i < r@.len() ==> (#[trigger] r@[i]).of_host(),
{
    let ls: Vec<String> = lines_of(contents);
    let mut out: Vec<SearchDomain> = Vec::new();
    let mut i: usize = 0;
    assert(names(out@) =~= seq![]);
    while i < ls.len()
        invariant
            i <= ls@.len(),
            names(out@) == host_domains(texts(ls@).take(i as int)),
            forall|j: int| 0 <= j < out@.len() ==> (#[trigger] out@[j]).of_host(),
        decreases ls@.len() - i,
    {
        proof {
            let next = texts(ls@).take(i + 1);
            assert(next.drop_last() =~= texts(ls@).take(i as int));
            assert(next.last() == ls@[i as int]@);
        }
        let t = text_trim(ls[i].as_str());
        let rest: Option<String> = match text_strip_prefix(t.as_str(), "search ") {
            Some(rest) => Some(rest),
            None => text_strip_prefix(t.as_str(), "domain "),
        };
        match rest {
            Some(rest) => {
                let ws: Vec<String> = words_of(rest.as_str());
                push_host_domains(&mut out, &ws);
            },
            None => {
                proof {
                    reveal(Seq::filter);
                    assert(not_ours(line_domains(ls@[i as int]@)) =~= seq![]);
                    assert(names(out@) + seq![] =~= names(out@));
                }
            },
        }
        i = i + 1;
    }
    assert(texts(ls@).take(i as int) =~= texts(ls@));
    out
}

/// The configurator for OpenBSD.
pub struct OpenBsdResolvConf {
    /// The upstreams that answered when the file was captured, written back as the
    /// nameservers after ours.
    pub captured: Vec<Ipv4Addr>,
    /// The host's own search domains.
    pub search: Vec<SearchDomain>,
    /// Whether the operator named upstreams of their own.
    pub operator_upstreams: bool,
}

/// Why the file cannot be taken over.
#[derive(Clone, Copy, Debug, PartialEq, Eq, Structural)]
pub enum TakeoverError {
    /// No captured server answers and the operator named none: owning the file would leave
    /// the host unable to resolve anything.
    NoWorkingServer,
}

/// The steps that put ours in place. The host's file is backed up before the first write
/// only: a later write must not back up our own over it.
pub open spec fn install_steps(
    exists: bool,
    backed_up: bool,
    contents: Seq<char>,
) -> Seq<FileStep<Seq<char>>> {
    let write = FileStep::Write(ConfigFile::ResolvConf, contents);
    if exists && !backed_up {
        seq![
            FileStep::Copy { from: ConfigFile::ResolvConf, to: ConfigFile::ResolvConfBackup },
            write,
        ]
    } else {
        seq![write]
    }
}

/// The steps that put the host's file back.
pub open spec fn revert_steps(backed_up: bool) -> Seq<FileStep<Seq<char>>> {
    if backed_up {
        seq![
            FileStep::Copy { from: ConfigFile::ResolvConfBackup, to: ConfigFile::ResolvConf },
            FileStep::Remove(ConfigFile::ResolvConfBackup),
        ]
    } else {
        seq![]
    }
}

/// The steps that put the host's file back, where it was backed up.
pub fn revert(backup_exists: bool) -> (r: Vec<FileStep<String>>)
    ensures
        steps_view(r@) == revert_steps(backup_exists),
{
    let mut steps: Vec<FileStep<String>> = Vec::new();
    if backup_exists {
        steps.push(
            FileStep::Copy { from: ConfigFile::ResolvConfBackup, to: ConfigFile::ResolvConf },
        );
        steps.push(FileStep::Remove(ConfigFile::ResolvConfBackup));
    }
    assert(steps_view(steps@) =~= revert_steps(backup_exists));
    steps
}

impl OpenBsdResolvConf {
    /// The file this configurator renders for the search domains `ds`.
    pub open spec fn file(&self, ds: Seq<Seq<char>>) -> Seq<char> {
        rendered(v6_text(magic_v6()), self.captured@, ds)
    }

    /// A configurator for a host whose `resolv.conf` holds `contents`, of whose nameservers
    /// those in `live` answered.
    pub fn new(contents: &str, live: Vec<Ipv4Addr>, operator_upstreams: bool) -> (r: Self)
        ensures
            r.captured@ == live@,
            names(r.search@) == host_domains(lines(contents@)),
            forall|i: int| 0 <= i < r.search@.len() ==> (#[trigger] r.search@[i]).of_host(),
            r.operator_upstreams == operator_upstreams,
    {
        OpenBsdResolvConf {
            captured: live,
            search: capture_search_domains(contents),
            operator_upstreams,
        }
    }

    /// Those of the servers a `resolv.conf` names that do not answer.
    pub fn dead_servers(contents: &str, live: &[Ipv4Addr]) -> (r: Vec<Ipv4Addr>)
        ensures
            r@ == died(servers(lines(contents@)), live@),
    {
        servers_lost(parse_nameservers(contents).as_slice(), live)
    }

    /// The file to write: ours first, then the captured servers, so the host keeps resolving
    /// if our resolver stops answering.
    pub fn render(&self, search: &[SearchDomain]) -> (r: String)
        ensures
            r@ == self.file(names(search@)),
    {
        let r = render_resolv_conf(
            resolver_addr(),
            self.captured.as_slice(),
            self.captured.len(),
            search,
        );
        assert(self.captured@.take(self.captured@.len() as int) =~= self.captured@);
        r
    }

    /// The steps that put the file for `search` in place.
    pub fn install(&self, search: &[SearchDomain], exists: bool, backup_exists: bool) -> (r: Vec<
        FileStep<String>,
    >)
        ensures
            steps_view(r@) == install_steps(exists, backup_exists, self.file(names(search@))),
    {
        let mut steps: Vec<FileStep<String>> = Vec::new();
        if exists && !backup_exists {
            steps.push(
                FileStep::Copy { from: ConfigFile::ResolvConf, to: ConfigFile::ResolvConfBackup },
            );
        }
        steps.push(FileStep::Write(ConfigFile::ResolvConf, self.render(search)));
        assert(steps_view(steps@) =~= install_steps(
            exists,
            backup_exists,
            self.file(names(search@)),
        ));
        steps
    }

    /// The steps that take the file over with the host's own search domains. Refused rather
    /// than leaving the host without a working server.
    pub fn apply(&self, exists: bool, backup_exists: bool) -> (r: Result<
        Vec<FileStep<String>>,
        TakeoverError,
    >)
        ensures
            r is Ok <==> (self.captured@.len() > 0 || self.operator_upstreams),
            r matches Ok(steps) ==> steps_view(steps@) == install_steps(
                exists,
                backup_exists,
                self.file(names(self.search@)),
            ),
            r matches Err(e) ==> e == TakeoverError::NoWorkingServer,
            r is Err <==> self.captured@.len() == 0 && !self.operator_upstreams,
    {
        if self.captured.len() == 0 && !self.operator_upstreams {
            return Err(TakeoverError::NoWorkingServer);
        }
        Ok(self.install(self.search.as_slice(), exists, backup_exists))
    }

    /// The steps that write the file anew for the search domains `domains`.
    pub fn set_search_domains(
        &self,
        domains: &[SearchDomain],
        exists: bool,
        backup_exists: bool,
    ) -> (r: Vec<FileStep<String>>)
        ensures
            steps_view(r@) == install_steps(exists, backup_exists, self.file(names(domains@))),
    {
        self.install(domains, exists, backup_exists)
    }
}

impl DnsConfigurator for OpenBsdResolvConf {
    fn name(&self) -> (r: &'static str)
        ensures
            r@ == "openbsd-resolv.conf"@,
    {
        "openbsd-resolv.conf"
    }

    fn captured_upstreams(&self) -> (r: Vec<Ipv4Addr>)
        ensures
            r@ == self.captured@,
    {
        copy_servers(&self.captured)
    }

    fn fallback_upstreams(&self) -> (r: Vec<Ipv4Addr>)
        ensures
            r@ == self.captured@,
    {
        copy_servers(&self.captured)
    }
}

/// The files after writing ours once for each of `contents`, one after another. Each write
/// looks at which files are there.
pub open spec fn after_installs(
    files: Map<ConfigFile, Seq<char>>,
    contents: Seq<Seq<char>>,
) -> Map<ConfigFile, Seq<char>>
    decreases contents.len(),
{
    if contents.len() == 0 {
        files
    } else {
        let f = after_installs(files, contents.drop_last());
        after_steps(
            f,
            install_steps(
                f.dom().contains(ConfigFile::ResolvConf),
                f.dom().contains(ConfigFile::ResolvConfBackup),
                contents.last(),
            ),
        )
    }
}

/// The files after putting the host's file back.
pub open spec fn after_revert(files: Map<ConfigFile, Seq<char>>) -> Map<ConfigFile, Seq<char>> {
    after_steps(files, revert_steps(files.dom().contains(ConfigFile::ResolvConfBackup)))
}

proof fn lemma_two_steps(
    files: Map<ConfigFile, Seq<char>>,
    a: FileStep<Seq<char>>,
    b: FileStep<Seq<char>>,
)
    ensures
        after_steps(files, seq![a, b]) == after_step(after_step(files, a), b),
        after_steps(files, seq![a]) == after_step(files, a),
{
    assert(seq![a, b].drop_last() =~= seq![a]);
    assert(seq![a].drop_last() =~= seq![]);
    assert(after_steps(files, seq![a].drop_last()) == files);
    assert(after_steps(files, seq![a]) == after_step(files, a));
}

/// While ours is in place the host's file is kept in the backup, however often ours was
/// written.
pub proof fn installs_keep_the_hosts_file(
    files: Map<ConfigFile, Seq<char>>,
    contents: Seq<Seq<char>>,
)
    requires
        files.dom().contains(ConfigFile::ResolvConf),
        !files.dom().contains(ConfigFile::ResolvConfBackup),
        contents.len() > 0,
    ensures
        after_installs(files, contents) == files.insert(
            ConfigFile::ResolvConfBackup,
            files[ConfigFile::ResolvConf],
        ).insert(ConfigFile::ResolvConf, contents.last()),
    decreases contents.len(),
{
    let init = contents.drop_last();
    let write = FileStep::Write(ConfigFile::ResolvConf, contents.last());
    let backup = FileStep::<Seq<char>>::Copy {
        from: ConfigFile::ResolvConf,
        to: ConfigFile::ResolvConfBackup,
    };
    let f = after_installs(files, init);
    lemma_two_steps(f, backup, write);
    lemma_two_steps(f, write, write);
    if init.len() > 0 {
        installs_keep_the_hosts_file(files, init);
    }
    assert(after_installs(files, contents) =~= files.insert(
        ConfigFile::ResolvConfBackup,
        files[ConfigFile::ResolvConf],
    ).insert(ConfigFile::ResolvConf, contents.last()));
}

/// Reverting after any number of writes leaves every file as it was before the first.
pub proof fn revert_restores_the_hosts_file(
    files: Map<ConfigFile, Seq<char>>,
    contents: Seq<Seq<char>>,
)
    requires
        files.dom().contains(ConfigFile::ResolvConf),
        !files.dom().contains(ConfigFile::ResolvConfBackup),
    ensures
        after_revert(after_installs(files, contents)) == files,
{
    if contents.len() > 0 {
        installs_keep_the_hosts_file(files, contents);
        let f = after_installs(files, contents);
        lemma_two_steps(
            f,
            FileStep::Copy { from: ConfigFile::ResolvConfBackup, to: ConfigFile::ResolvConf },
            FileStep::Remove(ConfigFile::ResolvConfBackup),
        );
        assert(after_revert(f) =~= files);
    }
}

} // verus!
