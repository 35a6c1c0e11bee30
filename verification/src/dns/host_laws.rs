//! What the host's DNS configuration comes to: which backend holds it, what a restore leaves, and
//! where the search domains go.

use vstd::prelude::*;

use crate::addr::Ipv4Addr;
use crate::dns::configure::{
    after_restore, clear_action, first_step, leftover_is_ours, lemma_probes, restore_probes,
    set_action, steps_for_backup, without_backup, ActionView, Backend, LadderStep, LinuxHost,
    RestoreProbe,
};
use crate::dns::read_laws::{
    a_file_is_held_merged_reclaimed_or_rewritten, between_the_overlay_bounds, carries_our_words,
    the_first_server_in_the_overlay_range_counts,
};
use crate::dns::resolv_conf::{first_overlay, stripped, upstreams};
use crate::files::{after_step, after_steps, file_path, ConfigFile, FileStep};
use crate::platform::Platform;
use crate::text::{contains, lines};

verus! {

/// Each platform that has one backend begins with applying it; Linux begins with a question, and
/// where there is no backend nothing is begun.
pub proof fn each_platform_begins_with_its_own(p: Platform)
    ensures
        first_step(p) == LadderStep::Apply(Backend::MacosDynamicStore) <==> p == Platform::MacOs,
        first_step(p) == LadderStep::Apply(Backend::OpenBsdResolvConf) <==> p == Platform::OpenBsd,
        first_step(p) == LadderStep::Apply(Backend::WindowsDns) <==> p == Platform::Windows,
        first_step(p) == LadderStep::AskResolvedInPath <==> p == Platform::Linux,
        first_step(p) == LadderStep::Unsupported <==> p == Platform::FreeBsd || p
            == Platform::Android || p == Platform::Other,
{
}

/// The backend that a run ends with, and whether it holds the host's DNS.
pub open spec fn ends_with_backend(h: LinuxHost, b: Backend) -> bool {
    h.run(first_step(Platform::Linux), 5) == (if h.applies {
        LadderStep::Configured(b)
    } else {
        LadderStep::Failed(b)
    })
}

/// On Linux systemd-resolved is used exactly where the C library asks it, over D-Bus before its
/// command; `resolvconf` exactly where neither was and it is no way round to a systemd-resolved
/// that is not asked; and `resolv.conf` itself exactly where nothing else can be.
pub proof fn each_linux_backend_is_used_exactly_where_it_works(h: LinuxHost)
    ensures
        ends_with_backend(h, Backend::ResolvedDbus) <==> h.resolved_in_path && h.dbus,
        ends_with_backend(h, Backend::ResolvedCli) <==> h.resolved_in_path && !h.dbus && h.cli,
        ends_with_backend(h, Backend::Resolvconf) <==> h.resolvconf && (if h.resolved_in_path {
            !h.dbus && !h.cli
        } else {
            !h.resolvconf_is_shim
        }),
        ends_with_backend(h, Backend::DirectResolvConf) <==> (if h.resolved_in_path {
            !h.dbus && !h.cli && !h.resolvconf
        } else {
            h.resolvconf_is_shim || !h.resolvconf
        }),
{
    reveal_with_fuel(LinuxHost::run, 6);
}

/// Where the C library does not ask systemd-resolved it makes no difference whether it could be
/// reached.
pub proof fn a_resolved_that_is_not_asked_makes_no_difference(h: LinuxHost, dbus: bool, cli: bool)
    requires
        !h.resolved_in_path,
    ensures
        h.run(first_step(Platform::Linux), 5) == (LinuxHost { dbus, cli, ..h }).run(
            first_step(Platform::Linux),
            5,
        ),
{
    reveal_with_fuel(LinuxHost::run, 6);
}

/// The file `f` as it stands, where it is there.
pub open spec fn held(files: Map<ConfigFile, Seq<char>>, f: ConfigFile) -> Option<Seq<char>> {
    if files.dom().contains(f) {
        Some(files[f])
    } else {
        None
    }
}

/// Whether a file names a server of another overlay network.
pub open spec fn shared_with_an_overlay(c: Seq<char>) -> bool {
    exists|k: int|
        0 <= k < upstreams(lines(c)).len() && between_the_overlay_bounds(
            #[trigger] upstreams(lines(c))[k],
        )
}

proof fn lemma_shared(c: Seq<char>)
    ensures
        first_overlay(upstreams(lines(c))) is Some <==> shared_with_an_overlay(c),
{
    let s = upstreams(lines(c));
    the_first_server_in_the_overlay_range_counts(s, Ipv4Addr { a: 0, b: 0, c: 0, d: 0 });
}

proof fn lemma_backup_restored(
    p: Platform,
    backup: ConfigFile,
    live: ConfigFile,
    files: Map<ConfigFile, Seq<char>>,
)
    requires
        backup != live,
    ensures
        ({
            let after = without_backup(p, backup, live, files);
            let shared = p == Platform::Linux && files.dom().contains(live)
                && shared_with_an_overlay(files[live]);
            &&& !files.dom().contains(backup) ==> after == files
            &&& files.dom().contains(backup) ==> after == (if shared {
                files.insert(live, stripped(files[live])).remove(backup)
            } else {
                files.insert(live, files[backup]).remove(backup)
            })
        }),
{
    if files.dom().contains(live) {
        lemma_shared(files[live]);
    }
    let s = steps_for_backup(p, backup, live, files);
    if files.dom().contains(backup) {
        assert(s.drop_last() =~= seq![s[0]]);
        assert(seq![s[0]].drop_last() =~= seq![]);
        assert(after_steps(files, seq![s[0]].drop_last()) == files);
        assert(after_steps(files, seq![s[0]]) == after_step(files, s[0]));
        assert(after_steps(files, s) == after_step(after_step(files, s[0]), s[1]));
        assert(lines(seq![]).len() == 0);
        assert(upstreams(lines(seq![])).len() == 0);
    }
}

/// On Linux a restore puts the host's `resolv.conf` back from its backup, unless another overlay
/// shares the file: then only our entries go. The backup is gone afterwards, and so is a
/// NetworkManager drop-in that carries our words; an operator's own stays, and so does everything
/// else.
pub proof fn a_restore_on_linux_gives_the_host_its_files_back(files: Map<ConfigFile, Seq<char>>)
    ensures
        ({
            let after = after_restore(Platform::Linux, files);
            let backup = held(files, ConfigFile::ResolvConfBackup);
            let live = held(files, ConfigFile::ResolvConf);
            let dropin = held(files, ConfigFile::NmDropin);
            &&& held(after, ConfigFile::ResolvConfBackup) is None
            &&& held(after, ConfigFile::ResolvConf) == (if backup is None {
                live
            } else if live is Some && shared_with_an_overlay(live->0) {
                Some(stripped(live->0))
            } else {
                backup
            })
            &&& held(after, ConfigFile::NmDropin) == (if dropin is Some && carries_our_words(
                lines(dropin->0),
            ) {
                None
            } else {
                dropin
            })
            &&& held(after, ConfigFile::LegacyResolver) == held(files, ConfigFile::LegacyResolver)
            &&& held(after, ConfigFile::LegacyResolverBackup) == held(
                files,
                ConfigFile::LegacyResolverBackup,
            )
        }),
{
    let p = Platform::Linux;
    let (b, l, f) = (ConfigFile::ResolvConfBackup, ConfigFile::ResolvConf, ConfigFile::NmDropin);
    lemma_probes(p, b, l, f, files);
    lemma_backup_restored(p, b, l, files);
    assert(restore_probes(p) =~= seq![
        RestoreProbe::Backup { backup: b, live: l },
        RestoreProbe::Leftover(f),
    ]);
    if files.dom().contains(f) {
        lemma_words_mark(files[f]);
    }
}

proof fn lemma_words_mark(c: Seq<char>)
    ensures
        leftover_is_ours(Platform::Linux, c) == carries_our_words(lines(c)),
{
    a_file_is_held_merged_reclaimed_or_rewritten(lines(c), None);
}

/// On OpenBSD a restore puts the host's `resolv.conf` back from its backup, and touches nothing
/// else.
pub proof fn a_restore_on_openbsd_gives_the_host_its_file_back(files: Map<ConfigFile, Seq<char>>)
    ensures
        after_restore(Platform::OpenBsd, files) == (if files.dom().contains(
            ConfigFile::ResolvConfBackup,
        ) {
            files.insert(ConfigFile::ResolvConf, files[ConfigFile::ResolvConfBackup]).remove(
                ConfigFile::ResolvConfBackup,
            )
        } else {
            files
        }),
{
    let p = Platform::OpenBsd;
    let (b, l) = (ConfigFile::ResolvConfBackup, ConfigFile::ResolvConf);
    lemma_probes(p, b, l, ConfigFile::NmDropin, files);
    lemma_backup_restored(p, b, l, files);
    assert(restore_probes(p) =~= seq![RestoreProbe::Backup { backup: b, live: l }]);
}

/// On macOS a restore puts back what stood in place of our old resolver file, and then removes
/// that file where it speaks of rayfish; `resolv.conf` is not touched.
pub proof fn a_restore_on_macos_clears_the_old_resolver_file(files: Map<ConfigFile, Seq<char>>)
    ensures
        ({
            let after = after_restore(Platform::MacOs, files);
            let backup = held(files, ConfigFile::LegacyResolverBackup);
            let put = if backup is Some {
                backup
            } else {
                held(files, ConfigFile::LegacyResolver)
            };
            &&& held(after, ConfigFile::LegacyResolverBackup) is None
            &&& held(after, ConfigFile::LegacyResolver) == (if put is Some && contains(
                put->0,
                "rayfish"@,
            ) {
                None
            } else {
                put
            })
            &&& held(after, ConfigFile::ResolvConf) == held(files, ConfigFile::ResolvConf)
            &&& held(after, ConfigFile::ResolvConfBackup) == held(files, ConfigFile::ResolvConfBackup)
            &&& held(after, ConfigFile::NmDropin) == held(files, ConfigFile::NmDropin)
        }),
{
    let p = Platform::MacOs;
    let (b, l) = (ConfigFile::LegacyResolverBackup, ConfigFile::LegacyResolver);
    lemma_probes(p, b, l, l, files);
    lemma_backup_restored(p, b, l, files);
    assert(restore_probes(p) =~= seq![
        RestoreProbe::Backup { backup: b, live: l },
        RestoreProbe::Leftover(l),
    ]);
}

/// No other platform has anything to restore.
pub proof fn no_other_platform_restores_anything(p: Platform, files: Map<ConfigFile, Seq<char>>)
    requires
        p != Platform::Linux,
        p != Platform::MacOs,
        p != Platform::OpenBsd,
    ensures
        after_restore(p, files) == files,
{
    assert(restore_probes(p) =~= seq![]);
}

/// Each platform's own manager is asked, with the domains and the interface that were given; one
/// without a manager is asked for nothing.
pub proof fn each_platforms_manager_is_asked(
    p: Platform,
    ds: Seq<(Seq<char>, bool)>,
    tun: Seq<char>,
)
    ensures
        p == Platform::MacOs ==> set_action(p, ds, tun) == ActionView::WriteKeys(ds, tun),
        p == Platform::Linux ==> set_action(p, ds, tun) == ActionView::SetResolved(ds, tun),
        p == Platform::Windows ==> set_action(p, ds, tun) == ActionView::Reconcile(ds, tun),
        set_action(p, ds, tun) == ActionView::Nothing <==> !(p == Platform::MacOs || p
            == Platform::Linux || p == Platform::Windows),
        p == Platform::MacOs ==> clear_action(p, tun) == ActionView::RemoveKeys,
        p != Platform::MacOs ==> clear_action(p, tun) == set_action(p, seq![], tun),
{
}

/// Every file has a place of its own, and a backup stands beside the file it backs up.
pub proof fn a_backup_stands_beside_its_file(nm: Seq<char>)
    ensures
        file_path(ConfigFile::ResolvConf, nm) == "/etc/resolv.conf"@,
        file_path(ConfigFile::ResolvConfBackup, nm) == file_path(ConfigFile::ResolvConf, nm)
            + ".before-rayfish"@,
        file_path(ConfigFile::LegacyResolver, nm) == "/etc/resolver/ray"@,
        file_path(ConfigFile::LegacyResolverBackup, nm) == file_path(ConfigFile::LegacyResolver, nm)
            + ".before-rayfish"@,
        file_path(ConfigFile::NmDropin, nm) == nm,
{
    reveal_strlit("/etc/resolv.conf");
    reveal_strlit("/etc/resolv.conf.before-rayfish");
    reveal_strlit(".before-rayfish");
    reveal_strlit("/etc/resolver/");
    reveal_strlit("ray");
    reveal_strlit("/etc/resolver/ray");
    assert("/etc/resolv.conf.before-rayfish"@ =~= "/etc/resolv.conf"@ + ".before-rayfish"@);
    assert("/etc/resolver/ray"@ =~= "/etc/resolver/"@ + "ray"@);
}

/// Carrying out one step changes the one file that it is about, and nothing else: a write leaves
/// its text there, a copy the text of the file it was made from, and a removal nothing.
pub proof fn a_step_changes_its_own_file(
    files: Map<ConfigFile, Seq<char>>,
    f: ConfigFile,
    g: ConfigFile,
    other: ConfigFile,
    text: Seq<char>,
)
    ensures
        held(after_step(files, FileStep::Write(f, text)), f) == Some(text),
        held(after_step(files, FileStep::Remove(f)), f) is None,
        files.dom().contains(f) ==> held(after_step(files, FileStep::Copy { from: f, to: g }), g)
            == Some(files[f]),
        other != f ==> held(after_step(files, FileStep::Write(f, text)), other) == held(files, other)
            && held(after_step(files, FileStep::Remove(f)), other) == held(files, other),
        other != g ==> held(after_step(files, FileStep::Copy { from: f, to: g }), other) == held(
            files,
            other,
        ),
{
}

} // verus!
