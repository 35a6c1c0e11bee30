//! Which backend configures the host's DNS, and what undoes a configuration that a crash
//! left behind.

use vstd::prelude::*;

use crate::addr::Ipv4Addr;
use crate::dns::resolv_conf::{
    first_overlay, host_modules, is_stub, marked, nsswitch_uses_resolve, other_overlay_resolver,
    resolv_conf_is_ours, resolv_conf_points_at_resolved, strip_our_resolv_entries, stripped,
    upstreams,
};
use crate::dns::resolv_laws::{stripping_keeps_the_upstreams, stripping_leaves_nothing_of_ours};
use crate::dns::search::{listed, SearchDomain};
use crate::files::{after_step, after_steps, steps_view, ConfigFile, FileStep};
use crate::platform::Platform;
use crate::text::{contains, lines, opt_str, text_contains};

verus! {

/// A way to configure the host's DNS.
#[derive(Clone, Copy, Debug, PartialEq, Eq, Structural)]
pub enum Backend {
    /// macOS: session keys in the dynamic store.
    MacosDynamicStore,
    /// OpenBSD: `/etc/resolv.conf` itself.
    OpenBsdResolvConf,
    /// Linux: systemd-resolved over D-Bus.
    ResolvedDbus,
    /// Linux: systemd-resolved through `resolvectl`.
    ResolvedCli,
    /// Linux: the `resolvconf` program.
    Resolvconf,
    /// Linux: `/etc/resolv.conf` itself.
    DirectResolvConf,
    /// Windows: the name resolution policy table.
    WindowsDns,
}

/// What to do next in choosing a backend.
#[derive(Clone, Copy, Debug, PartialEq, Eq, Structural)]
pub enum LadderStep {
    /// Find out whether the C library asks systemd-resolved at all.
    AskResolvedInPath,
    /// Try to reach systemd-resolved over D-Bus.
    TryResolvedDbus,
    /// Look for `resolvectl`.
    TryResolvedCli,
    /// Find out whether `resolvconf` is a shim in front of systemd-resolved.
    AskResolvconfIsShim,
    /// Look for `resolvconf`.
    TryResolvconf,
    /// Apply this backend.
    Apply(Backend),
    /// This backend holds the host's DNS.
    Configured(Backend),
    /// This backend could not be applied, and no other is tried.
    Failed(Backend),
    /// The platform has no way to configure DNS.
    Unsupported,
}

/// Where the choice begins on a platform.
pub open spec fn first_step(p: Platform) -> LadderStep {
    match p {
        Platform::MacOs => LadderStep::Apply(Backend::MacosDynamicStore),
        Platform::OpenBsd => LadderStep::Apply(Backend::OpenBsdResolvConf),
        Platform::Linux => LadderStep::AskResolvedInPath,
        Platform::Windows => LadderStep::Apply(Backend::WindowsDns),
        _ => LadderStep::Unsupported,
    }
}

/// The step after `s`, whose question was answered by `yes`, or which went well or not.
pub open spec fn step_after(s: LadderStep, yes: bool) -> LadderStep {
    match s {
        LadderStep::AskResolvedInPath => if yes {
            LadderStep::TryResolvedDbus
        } else {
            LadderStep::AskResolvconfIsShim
        },
        LadderStep::TryResolvedDbus => if yes {
            LadderStep::Apply(Backend::ResolvedDbus)
        } else {
            LadderStep::TryResolvedCli
        },
        LadderStep::TryResolvedCli => if yes {
            LadderStep::Apply(Backend::ResolvedCli)
        } else {
            LadderStep::TryResolvconf
        },
        LadderStep::AskResolvconfIsShim => if yes {
            LadderStep::Apply(Backend::DirectResolvConf)
        } else {
            LadderStep::TryResolvconf
        },
        LadderStep::TryResolvconf => if yes {
            LadderStep::Apply(Backend::Resolvconf)
        } else {
            LadderStep::Apply(Backend::DirectResolvConf)
        },
        LadderStep::Apply(b) => if yes {
            LadderStep::Configured(b)
        } else {
            LadderStep::Failed(b)
        },
        LadderStep::Configured(b) => LadderStep::Configured(b),
        LadderStep::Failed(b) => LadderStep::Failed(b),
        LadderStep::Unsupported => LadderStep::Unsupported,
    }
}

/// Begins the choice of a backend.
pub fn detect_and_configure(platform: Platform) -> (r: LadderStep)
    ensures
        r == first_step(platform),
{
    match platform {
        Platform::MacOs => LadderStep::Apply(Backend::MacosDynamicStore),
        Platform::OpenBsd => LadderStep::Apply(Backend::OpenBsdResolvConf),
        Platform::Linux => LadderStep::AskResolvedInPath,
        Platform::Windows => LadderStep::Apply(Backend::WindowsDns),
        _ => LadderStep::Unsupported,
    }
}

/// Goes on with the choice of a backend, given the answer to the step's question, and ends it
/// with what came of applying the backend.
pub fn next_backend_step(step: LadderStep, yes: bool) -> (r: LadderStep)
    ensures
        r == step_after(step, yes),
{
    match step {
        LadderStep::AskResolvedInPath => if yes {
            LadderStep::TryResolvedDbus
        } else {
            LadderStep::AskResolvconfIsShim
        },
        LadderStep::TryResolvedDbus => if yes {
            LadderStep::Apply(Backend::ResolvedDbus)
        } else {
            LadderStep::TryResolvedCli
        },
        LadderStep::TryResolvedCli => if yes {
            LadderStep::Apply(Backend::ResolvedCli)
        } else {
            LadderStep::TryResolvconf
        },
        LadderStep::AskResolvconfIsShim => if yes {
            LadderStep::Apply(Backend::DirectResolvConf)
        } else {
            LadderStep::TryResolvconf
        },
        LadderStep::TryResolvconf => if yes {
            LadderStep::Apply(Backend::Resolvconf)
        } else {
            LadderStep::Apply(Backend::DirectResolvConf)
        },
        LadderStep::Apply(b) => if yes {
            LadderStep::Configured(b)
        } else {
            LadderStep::Failed(b)
        },
        LadderStep::Configured(b) => LadderStep::Configured(b),
        LadderStep::Failed(b) => LadderStep::Failed(b),
        LadderStep::Unsupported => LadderStep::Unsupported,
    }
}

/// What a Linux host would answer to each question.
pub struct LinuxHost {
    pub resolved_in_path: bool,
    pub dbus: bool,
    pub cli: bool,
    pub resolvconf_is_shim: bool,
    pub resolvconf: bool,
    /// Whether the backend that is chosen can be applied.
    pub applies: bool,
}

impl LinuxHost {
    /// The host's answer to a step's question.
    pub open spec fn answer(self, s: LadderStep) -> bool {
        match s {
            LadderStep::AskResolvedInPath => self.resolved_in_path,
            LadderStep::TryResolvedDbus => self.dbus,
            LadderStep::TryResolvedCli => self.cli,
            LadderStep::AskResolvconfIsShim => self.resolvconf_is_shim,
            LadderStep::TryResolvconf => self.resolvconf,
            LadderStep::Apply(_) => self.applies,
            _ => false,
        }
    }

    /// The backend for the host: the first that works, of those the C library asks.
    pub open spec fn backend(self) -> Backend {
        if self.resolved_in_path && self.dbus {
            Backend::ResolvedDbus
        } else if self.resolved_in_path && self.cli {
            Backend::ResolvedCli
        } else if (self.resolved_in_path || !self.resolvconf_is_shim) && self.resolvconf {
            Backend::Resolvconf
        } else {
            Backend::DirectResolvConf
        }
    }

    /// The step reached after `n` answers from `s`.
    pub open spec fn run(self, s: LadderStep, n: nat) -> LadderStep
        decreases n,
    {
        if n == 0 {
            s
        } else {
            self.run(step_after(s, self.answer(s)), (n - 1) as nat)
        }
    }
}

/// Five answers end the run on any Linux host, and the backend that holds its DNS, or that
/// failed to, is the first that works of those that the C library asks.
pub proof fn ladder_settles_on_the_first_backend_in_use(h: LinuxHost)
    ensures
        h.run(first_step(Platform::Linux), 5) == (if h.applies {
            LadderStep::Configured(h.backend())
        } else {
            LadderStep::Failed(h.backend())
        }),
{
    reveal_with_fuel(LinuxHost::run, 6);
}

/// Whether the run has ended with a step: there is nothing left to ask or to apply.
pub open spec fn ended(s: LadderStep) -> bool {
    s is Configured || s is Failed || s is Unsupported
}

/// The step reached from `s` by these answers in turn.
pub open spec fn answered(s: LadderStep, answers: Seq<bool>) -> LadderStep
    decreases answers.len(),
{
    if answers.len() == 0 {
        s
    } else {
        step_after(answered(s, answers.drop_last()), answers.last())
    }
}

/// A backend is applied once, on every platform: what comes of it ends the run, its success
/// is the run's, and after a failure nothing else is applied, whatever is answered next.
pub proof fn a_backend_is_applied_once(b: Backend, ok: bool, answers: Seq<bool>)
    ensures
        ({
            let s = step_after(LadderStep::Apply(b), ok);
            &&& s == (if ok {
                LadderStep::Configured(b)
            } else {
                LadderStep::Failed(b)
            })
            &&& ended(s)
            &&& answered(s, answers) == s
        }),
    decreases answers.len(),
{
    if answers.len() > 0 {
        a_backend_is_applied_once(b, ok, answers.drop_last());
    }
}

/// A host whose C library does not ask systemd-resolved is never configured through it, not
/// even by way of the `resolvconf` shim.
pub proof fn resolved_out_of_the_path_is_never_used(h: LinuxHost)
    requires
        !h.resolved_in_path,
    ensures
        h.backend() != Backend::ResolvedDbus,
        h.backend() != Backend::ResolvedCli,
        h.resolvconf_is_shim ==> h.backend() == Backend::DirectResolvConf,
{
}

/// Whether the C library asks systemd-resolved: `resolv.conf` points at its stub, or
/// `nsswitch.conf` names its module.
pub fn resolved_is_in_resolution_path(resolv_conf: &str, nsswitch: &str) -> (r: bool)
    ensures
        r == ((exists|i: int|
            0 <= i < upstreams(lines(resolv_conf@)).len() && is_stub(
                #[trigger] upstreams(lines(resolv_conf@))[i],
            )) || (exists|i: int|
            0 <= i < lines(nsswitch@).len() && host_modules(
                #[trigger] lines(nsswitch@)[i],
            ).contains("resolve"@))),
        upstreams(lines(resolv_conf@)).contains(Ipv4Addr { a: 127, b: 0, c: 0, d: 53 })
            || upstreams(lines(resolv_conf@)).contains(Ipv4Addr { a: 127, b: 0, c: 0, d: 54 })
            ==> r,
        r ==> upstreams(lines(resolv_conf@)).contains(Ipv4Addr { a: 127, b: 0, c: 0, d: 53 })
            || upstreams(lines(resolv_conf@)).contains(Ipv4Addr { a: 127, b: 0, c: 0, d: 54 })
            || exists|i: int|
            0 <= i < lines(nsswitch@).len() && host_modules(
                #[trigger] lines(nsswitch@)[i],
            ).contains("resolve"@),
{
    resolv_conf_points_at_resolved(resolv_conf) || nsswitch_uses_resolve(nsswitch)
}

/// A place to look at for what a crash left behind.
#[derive(Clone, Copy, Debug, PartialEq, Eq, Structural)]
pub enum RestoreProbe {
    /// A backup of `live` that should be gone by now.
    Backup { backup: ConfigFile, live: ConfigFile },
    /// A file that should be gone by now, if it is ours.
    Leftover(ConfigFile),
}

/// The places to look at on a platform, in order.
pub open spec fn restore_probes(p: Platform) -> Seq<RestoreProbe> {
    match p {
        Platform::MacOs => seq![
            RestoreProbe::Backup {
                backup: ConfigFile::LegacyResolverBackup,
                live: ConfigFile::LegacyResolver,
            },
            RestoreProbe::Leftover(ConfigFile::LegacyResolver),
        ],
        Platform::Linux => seq![
            RestoreProbe::Backup {
                backup: ConfigFile::ResolvConfBackup,
                live: ConfigFile::ResolvConf,
            },
            RestoreProbe::Leftover(ConfigFile::NmDropin),
        ],
        Platform::OpenBsd => seq![
            RestoreProbe::Backup {
                backup: ConfigFile::ResolvConfBackup,
                live: ConfigFile::ResolvConf,
            },
        ],
        _ => seq![],
    }
}

/// The steps for a backup found beside the live file. On Linux the live file can be one that
/// another VPN shares: there only our own lines are taken out, for copying the backup over it
/// would undo their DNS as well.
pub open spec fn backup_steps(
    p: Platform,
    backup: ConfigFile,
    live: ConfigFile,
    exists: bool,
    contents: Option<Seq<char>>,
) -> Seq<FileStep<Seq<char>>> {
    let c = match contents {
        Some(c) => c,
        None => seq![],
    };
    if !exists {
        seq![]
    } else if p == Platform::Linux && first_overlay(upstreams(lines(c))) is Some {
        seq![FileStep::Write(live, stripped(c)), FileStep::Remove(backup)]
    } else {
        seq![FileStep::Copy { from: backup, to: live }, FileStep::Remove(backup)]
    }
}

/// Whether a leftover file with these contents is ours.
pub open spec fn leftover_is_ours(p: Platform, c: Seq<char>) -> bool {
    if p == Platform::MacOs {
        contains(c, "rayfish"@)
    } else {
        marked(lines(c))
    }
}

/// The steps for a leftover file: removed if it is ours, left alone if it is the operator's.
pub open spec fn leftover_steps(
    p: Platform,
    file: ConfigFile,
    contents: Option<Seq<char>>,
) -> Seq<FileStep<Seq<char>>> {
    match contents {
        Some(c) if leftover_is_ours(p, c) => seq![FileStep::Remove(file)],
        _ => seq![],
    }
}

/// The places to look at when the daemon starts, for what a hard kill left behind.
pub fn restore_stale_backups(platform: Platform) -> (r: Vec<RestoreProbe>)
    ensures
        r@ == restore_probes(platform),
{
    let mut out: Vec<RestoreProbe> = Vec::new();
    match platform {
        Platform::MacOs => {
            out.push(
                RestoreProbe::Backup {
                    backup: ConfigFile::LegacyResolverBackup,
                    live: ConfigFile::LegacyResolver,
                },
            );
            out.push(RestoreProbe::Leftover(ConfigFile::LegacyResolver));
        },
        Platform::Linux => {
            out.push(
                RestoreProbe::Backup {
                    backup: ConfigFile::ResolvConfBackup,
                    live: ConfigFile::ResolvConf,
                },
            );
            out.push(RestoreProbe::Leftover(ConfigFile::NmDropin));
        },
        Platform::OpenBsd => {
            out.push(
                RestoreProbe::Backup {
                    backup: ConfigFile::ResolvConfBackup,
                    live: ConfigFile::ResolvConf,
                },
            );
        },
        _ => {},
    }
    assert(out@ =~= restore_probes(platform));
    out
}

/// The places to look at when the daemon panics. Only Linux's takeover of
/// `/etc/resolv.conf` leaves anything to restore.
pub fn emergency_restore_resolv_conf(platform: Platform) -> (r: Vec<RestoreProbe>)
    ensures
        r@ == (if platform == Platform::Linux {
            restore_probes(Platform::Linux)
        } else {
            seq![]
        }),
        platform != Platform::Linux ==> r@.len() == 0,
        platform == Platform::Linux ==> r@.contains(
            RestoreProbe::Backup {
                backup: ConfigFile::ResolvConfBackup,
                live: ConfigFile::ResolvConf,
            },
        ) && r@.contains(RestoreProbe::Leftover(ConfigFile::NmDropin)),
{
    match platform {
        Platform::Linux => {
            let probes: Vec<RestoreProbe> = restore_stale_backups(Platform::Linux);
            assert(probes@[0] == RestoreProbe::Backup {
                backup: ConfigFile::ResolvConfBackup,
                live: ConfigFile::ResolvConf,
            });
            assert(probes@[1] == RestoreProbe::Leftover(ConfigFile::NmDropin));
            probes
        },
        _ => Vec::new(),
    }
}

/// The steps that undo a takeover whose backup was or was not found.
pub fn restore_backup(
    platform: Platform,
    backup: ConfigFile,
    live: ConfigFile,
    backup_exists: bool,
    contents: Option<&str>,
) -> (r: Vec<FileStep<String>>)
    ensures
        steps_view(r@) == backup_steps(platform, backup, live, backup_exists, opt_str(contents)),
{
    let mut steps: Vec<FileStep<String>> = Vec::new();
    if backup_exists {
        let current: &str = match contents {
            Some(c) => c,
            None => "",
        };
        proof {
            reveal_strlit("");
            assert(""@ =~= seq![]);
        }
        if matches!(platform, Platform::Linux) && other_overlay_resolver(current).is_some() {
            steps.push(FileStep::Write(live, strip_our_resolv_entries(current)));
        } else {
            steps.push(FileStep::Copy { from: backup, to: live });
        }
        steps.push(FileStep::Remove(backup));
    }
    assert(steps_view(steps@) =~= backup_steps(
        platform,
        backup,
        live,
        backup_exists,
        opt_str(contents),
    ));
    steps
}

/// The steps that clear a leftover file away, if it is ours.
pub fn restore_leftover(platform: Platform, file: ConfigFile, contents: Option<&str>) -> (r: Vec<
    FileStep<String>,
>)
    ensures
        steps_view(r@) == leftover_steps(platform, file, opt_str(contents)),
{
    let mut steps: Vec<FileStep<String>> = Vec::new();
    match contents {
        Some(c) => {
            let is_ours: bool = if matches!(platform, Platform::MacOs) {
                text_contains(c, "rayfish")
            } else {
                resolv_conf_is_ours(c)
            };
            if is_ours {
                steps.push(FileStep::Remove(file));
            }
        },
        None => {},
    }
    assert(steps_view(steps@) =~= leftover_steps(platform, file, opt_str(contents)));
    steps
}

/// The steps for a backup, as the files stand.
pub open spec fn steps_for_backup(
    p: Platform,
    backup: ConfigFile,
    live: ConfigFile,
    files: Map<ConfigFile, Seq<char>>,
) -> Seq<FileStep<Seq<char>>> {
    backup_steps(
        p,
        backup,
        live,
        files.dom().contains(backup),
        if files.dom().contains(live) {
            Some(files[live])
        } else {
            None
        },
    )
}

/// A restore undoes exactly one takeover: the live file is the backup again, or keeps the
/// other VPN's servers with nothing of ours left in it; the backup is gone, so a second
/// restore does nothing.
pub proof fn stale_backup_is_restored_once(
    p: Platform,
    backup: ConfigFile,
    live: ConfigFile,
    files: Map<ConfigFile, Seq<char>>,
)
    requires
        backup != live,
        files.dom().contains(backup),
    ensures
        ({
            let after = after_steps(files, steps_for_backup(p, backup, live, files));
            let shared = p == Platform::Linux && files.dom().contains(live) && first_overlay(
                upstreams(lines(files[live])),
            ) is Some;
            &&& !after.dom().contains(backup)
            &&& after.dom().contains(live)
            &&& !shared ==> after[live] == files[backup]
            &&& shared ==> {
                &&& upstreams(lines(after[live])) == upstreams(lines(files[live]))
                &&& !marked(lines(after[live]))
            }
            &&& steps_for_backup(p, backup, live, after).len() == 0
        }),
{
    let s = steps_for_backup(p, backup, live, files);
    assert(s.drop_last() =~= seq![s[0]]);
    assert(seq![s[0]].drop_last() =~= seq![]);
    assert(after_steps(files, seq![s[0]].drop_last()) == files);
    assert(after_steps(files, seq![s[0]]) == after_step(files, s[0]));
    assert(after_steps(files, s) == after_step(after_step(files, s[0]), s[1]));
    if files.dom().contains(live) {
        stripping_keeps_the_upstreams(files[live]);
        stripping_leaves_nothing_of_ours(files[live]);
    }
    assert(lines(seq![]).len() == 0);
    assert(upstreams(lines(seq![])).len() == 0);
}

/// The steps for a place to look at, as the files stand.
pub open spec fn probe_steps(
    p: Platform,
    probe: RestoreProbe,
    files: Map<ConfigFile, Seq<char>>,
) -> Seq<FileStep<Seq<char>>> {
    match probe {
        RestoreProbe::Backup { backup, live } => steps_for_backup(p, backup, live, files),
        RestoreProbe::Leftover(file) => leftover_steps(
            p,
            file,
            if files.dom().contains(file) {
                Some(files[file])
            } else {
                None
            },
        ),
    }
}

/// The files after looking at each place in turn; each look sees what the ones before it
/// left.
pub open spec fn after_probes(
    p: Platform,
    probes: Seq<RestoreProbe>,
    files: Map<ConfigFile, Seq<char>>,
) -> Map<ConfigFile, Seq<char>>
    decreases probes.len(),
{
    if probes.len() == 0 {
        files
    } else {
        let f = after_probes(p, probes.drop_last(), files);
        after_steps(f, probe_steps(p, probes.last(), f))
    }
}

/// The files after a whole restore.
pub open spec fn after_restore(p: Platform, files: Map<ConfigFile, Seq<char>>) -> Map<
    ConfigFile,
    Seq<char>,
> {
    after_probes(p, restore_probes(p), files)
}

/// The files once a backup found beside `live` was dealt with.
pub open spec fn without_backup(
    p: Platform,
    backup: ConfigFile,
    live: ConfigFile,
    files: Map<ConfigFile, Seq<char>>,
) -> Map<ConfigFile, Seq<char>> {
    after_steps(files, steps_for_backup(p, backup, live, files))
}

/// The files once a leftover was dealt with.
pub open spec fn without_leftover(
    p: Platform,
    file: ConfigFile,
    files: Map<ConfigFile, Seq<char>>,
) -> Map<ConfigFile, Seq<char>> {
    if files.dom().contains(file) && leftover_is_ours(p, files[file]) {
        files.remove(file)
    } else {
        files
    }
}

pub proof fn lemma_probes(
    p: Platform,
    backup: ConfigFile,
    live: ConfigFile,
    file: ConfigFile,
    files: Map<ConfigFile, Seq<char>>,
)
    ensures
        after_probes(p, seq![RestoreProbe::Backup { backup, live }], files) == without_backup(
            p,
            backup,
            live,
            files,
        ),
        after_probes(
            p,
            seq![RestoreProbe::Backup { backup, live }, RestoreProbe::Leftover(file)],
            files,
        ) == without_leftover(p, file, without_backup(p, backup, live, files)),
{
    let first = RestoreProbe::Backup { backup, live };
    let second = RestoreProbe::Leftover(file);
    assert(seq![first].drop_last() =~= seq![]);
    assert(after_probes(p, seq![first].drop_last(), files) == files);
    assert(after_probes(p, seq![first], files) == without_backup(p, backup, live, files));
    assert(seq![first, second].drop_last() =~= seq![first]);
    let f = without_backup(p, backup, live, files);
    let s = probe_steps(p, second, f);
    if s.len() > 0 {
        assert(s.drop_last() =~= seq![]);
        assert(after_steps(f, s.drop_last()) == f);
    }
}

pub proof fn lemma_without_backup(
    p: Platform,
    backup: ConfigFile,
    live: ConfigFile,
    files: Map<ConfigFile, Seq<char>>,
)
    requires
        backup != live,
    ensures
        !without_backup(p, backup, live, files).dom().contains(backup),
        !files.dom().contains(backup) ==> without_backup(p, backup, live, files) == files,
{
    if files.dom().contains(backup) {
        stale_backup_is_restored_once(p, backup, live, files);
    }
}

/// A whole restore leaves no backup behind, and a second one finds nothing to do: run twice it
/// leaves the files as one run does.
pub proof fn restoring_twice_is_restoring_once(p: Platform, files: Map<ConfigFile, Seq<char>>)
    ensures
        after_restore(p, after_restore(p, files)) == after_restore(p, files),
        forall|backup: ConfigFile, live: ConfigFile|
            #![trigger restore_probes(p).contains(RestoreProbe::Backup { backup, live })]
            restore_probes(p).contains(RestoreProbe::Backup { backup, live })
                ==> !after_restore(p, files).dom().contains(backup),
{
    let probes = restore_probes(p);
    if probes.len() > 0 {
        let (backup, live) = match probes[0] {
            RestoreProbe::Backup { backup, live } => (backup, live),
            RestoreProbe::Leftover(f) => (f, f),
        };
        let file = if p == Platform::MacOs {
            ConfigFile::LegacyResolver
        } else {
            ConfigFile::NmDropin
        };
        let once = after_restore(p, files);
        lemma_probes(p, backup, live, file, files);
        lemma_probes(p, backup, live, file, once);
        lemma_without_backup(p, backup, live, files);
        lemma_without_backup(p, backup, live, once);
        if p == Platform::OpenBsd {
            assert(probes =~= seq![probes[0]]);
        } else {
            assert(probes =~= seq![probes[0], RestoreProbe::Leftover(file)]);
        }
        assert(!once.dom().contains(backup));
        assert forall|b: ConfigFile, l: ConfigFile|
            #![trigger probes.contains(RestoreProbe::Backup { backup: b, live: l })]
            probes.contains(RestoreProbe::Backup { backup: b, live: l }) implies !once.dom().contains(
            b,
        ) by {
            assert(b == backup);
        }
    }
}

/// What the host's DNS manager is asked to do, with the search domains and the interface that
/// go with it.
#[derive(Debug, PartialEq, Eq)]
pub enum ManagerAction {
    /// Nothing: no manager holds `.ray` here.
    Nothing,
    /// macOS: write the session keys, with the resolver and the search domains in them.
    WriteKeys { domains: Vec<SearchDomain>, tun_name: String },
    /// macOS: remove the session keys.
    RemoveKeys,
    /// Linux: hand the search domains to systemd-resolved.
    SetResolved { domains: Vec<SearchDomain>, tun_name: String },
    /// Windows: reconcile the policy table and the suffix list.
    Reconcile { domains: Vec<SearchDomain>, tun_name: String },
}

/// An action with its domains and its interface as mathematical values; each domain with
/// whether the host had it.
pub enum ActionView {
    Nothing,
    WriteKeys(Seq<(Seq<char>, bool)>, Seq<char>),
    RemoveKeys,
    SetResolved(Seq<(Seq<char>, bool)>, Seq<char>),
    Reconcile(Seq<(Seq<char>, bool)>, Seq<char>),
}

/// What an action is.
pub open spec fn action_view(a: ManagerAction) -> ActionView {
    match a {
        ManagerAction::Nothing => ActionView::Nothing,
        ManagerAction::WriteKeys { domains, tun_name } => ActionView::WriteKeys(
            listed(domains@),
            tun_name@,
        ),
        ManagerAction::RemoveKeys => ActionView::RemoveKeys,
        ManagerAction::SetResolved { domains, tun_name } => ActionView::SetResolved(
            listed(domains@),
            tun_name@,
        ),
        ManagerAction::Reconcile { domains, tun_name } => ActionView::Reconcile(
            listed(domains@),
            tun_name@,
        ),
    }
}

/// What setting the search domains `ds` asks of the manager on a platform.
pub open spec fn set_action(p: Platform, ds: Seq<(Seq<char>, bool)>, tun: Seq<char>) -> ActionView {
    match p {
        Platform::MacOs => ActionView::WriteKeys(ds, tun),
        Platform::Linux => ActionView::SetResolved(ds, tun),
        Platform::Windows => ActionView::Reconcile(ds, tun),
        _ => ActionView::Nothing,
    }
}

/// What clearing the search domains asks of the manager on a platform: the keys gone on
/// macOS, an empty list elsewhere.
pub open spec fn clear_action(p: Platform, tun: Seq<char>) -> ActionView {
    if p == Platform::MacOs {
        ActionView::RemoveKeys
    } else {
        set_action(p, seq![], tun)
    }
}

/// The search domains that the manager holds for us once it has done `a`: none at all once
/// the keys are gone.
pub open spec fn held_domains(a: ActionView, before: Option<Seq<(Seq<char>, bool)>>) -> Option<
    Seq<(Seq<char>, bool)>,
> {
    match a {
        ActionView::Nothing => before,
        ActionView::RemoveKeys => None,
        ActionView::WriteKeys(ds, _) => Some(ds),
        ActionView::SetResolved(ds, _) => Some(ds),
        ActionView::Reconcile(ds, _) => Some(ds),
    }
}

fn copy_domains(domains: &[SearchDomain]) -> (r: Vec<SearchDomain>)
    ensures
        listed(r@) == listed(domains@),
{
    let mut out: Vec<SearchDomain> = Vec::new();
    let mut i: usize = 0;
    while i < domains.len()
        invariant
            i <= domains@.len(),
            listed(out@) == listed(domains@).take(i as int),
        decreases domains@.len() - i,
    {
        let ghost before = out@;
        out.push(domains[i].clone());
        assert(listed(out@) =~= listed(before).push(listed(domains@)[i as int]));
        assert(listed(domains@).take(i + 1) =~= listed(domains@).take(i as int).push(
            listed(domains@)[i as int],
        ));
        i = i + 1;
    }
    assert(listed(domains@).take(i as int) =~= listed(domains@));
    out
}

/// How the search domains for the joined networks reach the manager that holds `.ray`.
pub fn set_manager_search_domains(
    platform: Platform,
    domains: &[SearchDomain],
    tun_name: &str,
) -> (r: ManagerAction)
    ensures
        action_view(r) == set_action(platform, listed(domains@), tun_name@),
{
    let domains: Vec<SearchDomain> = copy_domains(domains);
    let tun_name: String = tun_name.to_owned();
    match platform {
        Platform::MacOs => ManagerAction::WriteKeys { domains, tun_name },
        Platform::Linux => ManagerAction::SetResolved { domains, tun_name },
        Platform::Windows => ManagerAction::Reconcile { domains, tun_name },
        _ => ManagerAction::Nothing,
    }
}

/// The platform a backend is for.
pub open spec fn platform_of(b: Backend) -> Platform {
    match b {
        Backend::MacosDynamicStore => Platform::MacOs,
        Backend::OpenBsdResolvConf => Platform::OpenBsd,
        Backend::WindowsDns => Platform::Windows,
        _ => Platform::Linux,
    }
}

/// Whether a backend owns a file that it writes the search domains into.
pub open spec fn owns_a_file(b: Backend) -> bool {
    b == Backend::Resolvconf || b == Backend::DirectResolvConf || b == Backend::OpenBsdResolvConf
}

/// Where the search domains for the joined networks go.
#[derive(Debug, PartialEq, Eq)]
pub enum SearchTarget {
    /// Into the file that the backend owns.
    File,
    /// To the manager that holds `.ray`.
    Manager(ManagerAction),
}

/// Where the search domains for the joined networks go under a backend: into its own file
/// where it owns one, for no manager would take them there, and to the manager otherwise.
pub fn set_search_domains(backend: Backend, domains: &[SearchDomain], tun_name: &str) -> (r:
    SearchTarget)
    ensures
        r is File <==> owns_a_file(backend),
        r matches SearchTarget::Manager(a) ==> action_view(a) == set_action(
            platform_of(backend),
            listed(domains@),
            tun_name@,
        ),
{
    let platform: Platform = match backend {
        Backend::Resolvconf | Backend::DirectResolvConf | Backend::OpenBsdResolvConf => {
            return SearchTarget::File;
        },
        Backend::MacosDynamicStore => Platform::MacOs,
        Backend::WindowsDns => Platform::Windows,
        Backend::ResolvedDbus | Backend::ResolvedCli => Platform::Linux,
    };
    SearchTarget::Manager(set_manager_search_domains(platform, domains, tun_name))
}

/// Under every backend that a host can be configured with, the search domains have somewhere
/// to go: a file, or a manager that then holds them.
pub proof fn search_domains_always_have_a_place(
    b: Backend,
    ds: Seq<(Seq<char>, bool)>,
    tun: Seq<char>,
    before: Option<Seq<(Seq<char>, bool)>>,
)
    ensures
        owns_a_file(b) || held_domains(set_action(platform_of(b), ds, tun), before) == Some(ds),
{
}

/// The backends that own a file are the one for OpenBSD, `resolvconf` and the one that writes
/// `resolv.conf` on Linux; those that hand `.ray` to a manager own none.
pub proof fn three_backends_own_a_file(b: Backend)
    ensures
        owns_a_file(b) <==> !(b == Backend::MacosDynamicStore || b == Backend::ResolvedDbus || b
            == Backend::ResolvedCli || b == Backend::WindowsDns),
{
}

/// A platform is only ever configured through a backend that is for it.
pub proof fn a_backend_is_applied_where_it_belongs(p: Platform, h: LinuxHost)
    ensures
        first_step(p) matches LadderStep::Apply(b) ==> platform_of(b) == p,
        platform_of(h.backend()) == Platform::Linux,
{
}

/// Drops the macOS keys, with or without a configurator to do it.
pub fn remove_dns_config() -> (r: ManagerAction)
    ensures
        action_view(r) == ActionView::RemoveKeys,
{
    ManagerAction::RemoveKeys
}

/// How all our search domains are withdrawn on shutdown. On macOS by removing the keys: to
/// write an empty list would write the resolver's address with it, and point the host at a
/// resolver that is about to stop answering. Elsewhere by setting an empty list.
pub fn clear_search_domains(platform: Platform, tun_name: &str) -> (r: ManagerAction)
    ensures
        action_view(r) == clear_action(platform, tun_name@),
{
    match platform {
        Platform::MacOs => remove_dns_config(),
        _ => {
            let none: Vec<SearchDomain> = Vec::new();
            assert(listed(none@) =~= seq![]);
            set_manager_search_domains(platform, none.as_slice(), tun_name)
        },
    }
}

/// After a clear the manager holds no search domain of ours, on every platform that has a
/// manager; on macOS the keys are gone altogether and none is written. Clearing twice is
/// clearing once.
pub proof fn clearing_withdraws_every_search_domain(
    p: Platform,
    tun: Seq<char>,
    before: Option<Seq<(Seq<char>, bool)>>,
)
    ensures
        ({
            let clear = clear_action(p, tun);
            let once = held_domains(clear, before);
            &&& clear != ActionView::Nothing ==> (once matches Some(ds) ==> ds.len() == 0)
            &&& p == Platform::MacOs ==> once is None
            &&& clear !is WriteKeys
            &&& held_domains(clear, once) == once
        }),
{
}

/// What is set is what the manager then holds, whatever it held before, and a clear takes it
/// all back, on every platform that has a manager.
pub proof fn clearing_undoes_setting(
    p: Platform,
    ds: Seq<(Seq<char>, bool)>,
    tun: Seq<char>,
    before: Option<Seq<(Seq<char>, bool)>>,
)
    requires
        set_action(p, ds, tun) != ActionView::Nothing,
    ensures
        held_domains(set_action(p, ds, tun), before) == Some(ds),
        held_domains(clear_action(p, tun), held_domains(set_action(p, ds, tun), before)) matches Some(
            left,
        ) ==> left.len() == 0,
{
}

} // verus!
