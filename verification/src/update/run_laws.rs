//! The course of an update, of an install and of a removal, from beginning to end.

use vstd::prelude::*;

use crate::platform::Platform;
use crate::text::{ends_with, lines, starts_with};
use crate::update::daemon::{
    keeps_waiting, last_lines, log_tail, log_unreadable, waiting_is_bounded,
    DAEMON_REACHABLE_TIMEOUT_MS,
};
use crate::update::flow::{all_well, update_after, update_step_at, UpdateStep};
use crate::update::install::{
    first_step, step_after, step_at, swapped_message, InstallSite, InstallStep,
};
use crate::update::service::{must_succeed, uninstall_steps, ServiceState, StepView};
use crate::update::UpdateRequest;

verus! {

proof fn lemma_next(site: InstallSite, n: nat)
    requires
        n > 0,
    ensures
        step_at(site, all_well(n)) == step_after(site, step_at(site, all_well((n - 1) as nat)), true),
{
    assert(all_well(n).drop_last() =~= all_well((n - 1) as nat));
}

/// An install whose steps all succeed: outside Windows it asks for root exactly where a service
/// is to be restarted or the binary's directory cannot be written to, swaps the binary, and then
/// restarts the service exactly where one is installed. It ends with the service restarted, or,
/// where there is none, with nothing left to do.
pub proof fn a_swap_is_followed_by_a_restart_where_a_service_is_installed(site: InstallSite)
    requires
        site.platform != Platform::Windows,
    ensures
        ({
            let asks = site.service_installed || site.exe_dir_writable != Some(true);
            let k: nat = if asks {
                1
            } else {
                0
            };
            &&& asks ==> step_at(site, all_well(0)) == InstallStep::RequireRoot
            &&& step_at(site, all_well(k)) == InstallStep::DownloadAndSwap
            &&& site.service_installed ==> step_at(site, all_well(k + 1))
                == InstallStep::RestartService
            &&& site.service_installed ==> step_at(site, all_well(k + 2)) == InstallStep::Restarted
            &&& !site.service_installed ==> step_at(site, all_well(k + 1)) == InstallStep::Done
        }),
{
    assert(step_at(site, all_well(0)) == first_step(site));
    lemma_next(site, 1);
    lemma_next(site, 2);
    lemma_next(site, 3);
}

/// On Windows an install whose steps all succeed asks for elevation, downloads the installer and
/// schedules it; nothing is swapped and no service is restarted by hand.
pub proof fn windows_schedules_its_installer(site: InstallSite)
    requires
        site.platform == Platform::Windows,
    ensures
        step_at(site, all_well(0)) == InstallStep::RequireElevation,
        step_at(site, all_well(1)) == InstallStep::DownloadInstaller,
        step_at(site, all_well(2)) == InstallStep::ScheduleInstaller,
        step_at(site, all_well(3)) == InstallStep::Scheduled,
{
    assert(step_at(site, all_well(0)) == first_step(site));
    lemma_next(site, 1);
    lemma_next(site, 2);
    lemma_next(site, 3);
}

/// Whether an install has ended with a step.
pub open spec fn install_ended(step: InstallStep) -> bool {
    step == InstallStep::Done || step == InstallStep::Restarted || step == InstallStep::Scheduled
        || step == InstallStep::Failed
}

/// On any machine, at any step: what has ended stays ended, a failed step fails the install, a
/// swap is followed by the restart of the service exactly where one is installed, and only a
/// restart that succeeded is called one.
pub proof fn each_step_of_an_install_leads_to_its_next(site: InstallSite, step: InstallStep, ok: bool)
    ensures
        install_ended(step) ==> step_after(site, step, ok) == step,
        !install_ended(step) && !ok ==> step_after(site, step, ok) == InstallStep::Failed,
        step == InstallStep::DownloadAndSwap && ok ==> (step_after(site, step, ok)
            == InstallStep::RestartService <==> site.service_installed),
        step_after(site, step, ok) == InstallStep::Done && step != InstallStep::Done ==> ok && step
            == InstallStep::DownloadAndSwap && !site.service_installed,
        step_after(site, step, ok) == InstallStep::Restarted && step != InstallStep::Restarted ==> ok
            && step == InstallStep::RestartService,
        step_after(site, step, ok) == InstallStep::Scheduled && step != InstallStep::Scheduled ==> ok
            && step == InstallStep::ScheduleInstaller,
        step_after(site, step, ok) == InstallStep::ScheduleInstaller ==> ok && step
            == InstallStep::DownloadInstaller,
        step_after(site, step, ok) == InstallStep::RestartService ==> ok && step
            == InstallStep::DownloadAndSwap && site.service_installed,
        step_after(site, step, ok) == InstallStep::Failed ==> !ok || step == InstallStep::Failed,
        step_after(site, step, ok) != InstallStep::RequireRoot,
        step_after(site, step, ok) != InstallStep::RequireElevation,
{
}

/// An update that swapped the binary says what ran before and what runs next: a nightly is known
/// by its commit, any other by its version.
pub proof fn a_swap_says_from_what_to_what(current: Seq<char>, label: Seq<char>, sha: Seq<char>)
    ensures
        ends_with(swapped_message(current, label, sha), " → "@ + label),
        starts_with(label, "nightly"@) ==> swapped_message(current, label, sha)
            == "updated rayfish "@ + ("nightly ("@ + sha + ")"@) + " → "@ + label,
        !starts_with(label, "nightly"@) ==> swapped_message(current, label, sha)
            == "updated rayfish "@ + ("v"@ + current) + " → "@ + label,
{
    let m = swapped_message(current, label, sha);
    let tail = " → "@ + label;
    assert(m.skip(m.len() - tail.len()) =~= tail);
}

/// What a run does once it knows whether the release is the one that runs.
pub open spec fn ending(request: UpdateRequest, current: bool) -> Seq<UpdateStep> {
    if request.check && current {
        seq![UpdateStep::ReportHead, UpdateStep::ReportTail, UpdateStep::Finished]
    } else if request.check {
        seq![
            UpdateStep::ReportHead,
            UpdateStep::ReportChanges,
            UpdateStep::ReportTail,
            UpdateStep::Finished,
        ]
    } else if !current || request.force {
        seq![UpdateStep::ShowChanges, UpdateStep::Install, UpdateStep::Finished]
    } else {
        seq![UpdateStep::SayCurrent, UpdateStep::Finished]
    }
}

/// What a run looks at to know it: the release, its checksum, and then, on Windows, the
/// installer's record, or, for a nightly that is not pinned, the running binary.
pub open spec fn beginning(platform: Platform, request: UpdateRequest) -> Seq<UpdateStep> {
    let asked = seq![UpdateStep::NameAsset, UpdateStep::QueryRelease, UpdateStep::FetchChecksum];
    if platform == Platform::Windows {
        asked.push(UpdateStep::CompareInstaller)
    } else if request.nightly && request.version is None {
        asked.push(UpdateStep::ReadOwnBinary)
    } else {
        asked
    }
}

proof fn lemma_goes_on(platform: Platform, request: UpdateRequest, current: bool, n: nat)
    requires
        n > 0,
    ensures
        update_step_at(platform, request, all_well(n), current) == update_after(
            platform,
            request,
            update_step_at(platform, request, all_well((n - 1) as nat), current),
            true,
            current,
        ),
{
    assert(all_well(n).drop_last() =~= all_well((n - 1) as nat));
}

/// A run whose steps all succeed goes through exactly these steps: a list is printed and that is
/// all; anything else names the asset, asks for the release and its checksum, compares what the
/// platform and the channel compare, and then reports, declines or installs.
pub proof fn a_run_goes_through_its_steps_in_order(
    platform: Platform,
    request: UpdateRequest,
    current: bool,
    i: nat,
)
    ensures
        request.list ==> {
            &&& update_step_at(platform, request, all_well(0), current) == UpdateStep::NameAsset
            &&& update_step_at(platform, request, all_well(1), current) == UpdateStep::ListReleases
            &&& update_step_at(platform, request, all_well(2), current) == UpdateStep::Finished
        },
        !request.list && i < (beginning(platform, request) + ending(request, current)).len()
            ==> update_step_at(platform, request, all_well(i), current) == (beginning(
            platform,
            request,
        ) + ending(request, current))[i as int],
{
    assert(update_step_at(platform, request, all_well(0), current) == UpdateStep::NameAsset);
    lemma_goes_on(platform, request, current, 1);
    lemma_goes_on(platform, request, current, 2);
    lemma_goes_on(platform, request, current, 3);
    lemma_goes_on(platform, request, current, 4);
    lemma_goes_on(platform, request, current, 5);
    lemma_goes_on(platform, request, current, 6);
    lemma_goes_on(platform, request, current, 7);
    let all = beginning(platform, request) + ending(request, current);
    assert(all.len() <= 8);
    if !request.list && i < all.len() {
        if i == 0 {
        } else if i == 1 {
        } else if i == 2 {
        } else if i == 3 {
        } else if i == 4 {
        } else if i == 5 {
        } else if i == 6 {
        } else {
            assert(i == 7);
        }
    }
}

/// Whether the failure of a step ends a run with an error: naming the asset, everything that is
/// asked of a server, the comparison on Windows, and the install. What is printed cannot fail,
/// and a binary that cannot be read stops nothing.
pub open spec fn must_go_well(step: UpdateStep) -> bool {
    step == UpdateStep::NameAsset || step == UpdateStep::ListReleases || step
        == UpdateStep::QueryRelease || step == UpdateStep::FetchChecksum || step
        == UpdateStep::CompareInstaller || step == UpdateStep::Install
}

/// A run fails exactly where a step that must go well did not, and a failed run stays failed; no
/// other step minds how it went. A binary that cannot be read leads where one that can be read
/// leads.
pub proof fn a_run_fails_only_where_it_must(
    platform: Platform,
    request: UpdateRequest,
    step: UpdateStep,
    ok: bool,
    current: bool,
)
    ensures
        update_after(platform, request, step, ok, current) == UpdateStep::Failed <==> step
            == UpdateStep::Failed || (must_go_well(step) && !ok),
        !must_go_well(step) ==> update_after(platform, request, step, ok, current) == update_after(
            platform,
            request,
            step,
            !ok,
            current,
        ),
        update_after(platform, request, step, ok, current) == UpdateStep::Install ==> step
            == UpdateStep::ShowChanges,
        update_after(platform, request, step, ok, current) == UpdateStep::ShowChanges
            ==> !request.check && (request.force || !current),
        update_after(platform, request, UpdateStep::Finished, ok, current) == UpdateStep::Finished,
{
}

/// Where a step stands in a removal, and that it stands there only.
pub open spec fn once_at(steps: Seq<StepView>, s: StepView, i: int) -> bool {
    0 <= i < steps.len() && steps[i] == s && forall|j: int|
        0 <= j < steps.len() && #[trigger] steps[j] == s ==> j == i
}

/// An installed service is taken away as its platform has it: on Linux the unit is disabled, then
/// removed, and systemd, and it alone, is told; on macOS the daemon is unloaded before its file
/// goes; on Windows the service manager removes it. The last step says so.
pub proof fn an_installed_service_is_taken_away(s: ServiceState)
    requires
        s.installed,
    ensures
        ({
            let linux = uninstall_steps(Platform::Linux, s);
            let reload = StepView::Run("systemctl"@, seq!["daemon-reload"@]);
            &&& once_at(linux, StepView::DisableUnit, 1)
            &&& once_at(linux, StepView::RemoveUnit, 2)
            &&& s.systemd ==> linux.len() == 5 && once_at(linux, reload, 3)
            &&& !s.systemd ==> linux.len() == 4
            &&& linux.last() == StepView::Say("Removed "@ + s.init_label@ + " service."@)
        }),
        ({
            let macos = uninstall_steps(Platform::MacOs, s);
            let plist = "/Library/LaunchDaemons/com.rayfish.vpn.plist"@;
            &&& macos.len() == 4
            &&& once_at(macos, StepView::Run("launchctl"@, seq!["unload"@, "-w"@, plist]), 1)
            &&& once_at(macos, StepView::RemoveFile(plist), 2)
            &&& macos.last() == StepView::Say("Removed launchd daemon."@)
        }),
        ({
            let windows = uninstall_steps(Platform::Windows, s);
            &&& windows.len() == 3
            &&& once_at(windows, StepView::RemoveService, 1)
            &&& windows.last() == StepView::Say("Removed Windows service."@)
        }),
{
}

/// Where no service is installed nothing but the completions is touched, and the user is told; a
/// platform without services refuses, and no other does.
pub proof fn nothing_is_taken_away_where_nothing_is_installed(platform: Platform, s: ServiceState)
    ensures
        ({
            let steps = uninstall_steps(platform, s);
            let known = platform == Platform::Linux || platform == Platform::MacOs || platform
                == Platform::Windows;
            &&& steps[0] == StepView::RemoveCompletions
            &&& known && !s.installed ==> steps.len() == 2 && steps[1] == StepView::Say(
                "Service not installed."@,
            )
            &&& !known ==> steps.len() == 2 && steps[1] == StepView::Refuse(
                "service uninstallation not supported on this platform"@,
            )
            &&& known ==> forall|i: int|
                0 <= i < steps.len() ==> !(#[trigger] steps[i] is Refuse)
        }),
{
}

/// What removes the service has to succeed, and so has a refusal its effect; a command that a
/// service manager is told, and what is said, may fail.
pub proof fn only_the_removal_itself_must_succeed(s: StepView)
    ensures
        must_succeed(s) <==> s is RemoveUnit || s is RemoveFile || s is RemoveService || s is Refuse,
        s is Run || s is Say || s is DisableUnit || s is RemoveCompletions ==> !must_succeed(s),
{
}

/// The tail of a log is its end: the last fifteen lines, or all of them where there are fewer.
pub proof fn a_log_is_shown_from_its_end(path: Seq<char>, contents: Seq<char>, i: int)
    ensures
        ({
            let ls = lines(contents);
            let shown = log_tail(path, contents);
            let n = if ls.len() < 15 {
                ls.len() as int
            } else {
                15
            };
            &&& shown[0].len() == 0
            &&& ls.len() == 0 ==> shown.len() == 2 && shown[1] == "(daemon log "@ + path
                + " is empty)"@
            &&& ls.len() > 0 ==> shown.len() == 2 + n && shown[1] == "Last lines of "@ + path + ":"@
            &&& ls.len() > 0 && 0 <= i < n ==> shown[2 + i] == "  "@ + ls[ls.len() - n + i]
        }),
{
    let ls = lines(contents);
    let kept = last_lines(ls, 15);
    let n = if ls.len() < 15 {
        ls.len() as int
    } else {
        15
    };
    if ls.len() > 0 && 0 <= i < n {
        assert(kept[i] == ls[ls.len() - n + i]);
        assert(log_tail(path, contents)[2 + i] == "  "@ + kept[i]);
    }
}

/// A log that cannot be read is reported with its path and the reason.
pub proof fn an_unreadable_log_is_reported(path: Seq<char>, error: Seq<char>)
    ensures
        log_unreadable(path, error).len() == 2,
        log_unreadable(path, error)[0].len() == 0,
        log_unreadable(path, error)[1] == "(could not read daemon log "@ + path + ": "@ + error
            + ")"@,
{
}

/// A daemon has thirty seconds to come up and is asked four times a second: no more than a hundred
/// and twenty attempts go unanswered, and so many may.
pub proof fn a_daemon_is_waited_for_half_a_minute(ends: Seq<nat>)
    ensures
        keeps_waiting(ends, DAEMON_REACHABLE_TIMEOUT_MS as nat) ==> ends.len() <= 120,
        keeps_waiting(
            Seq::new(120, |i: int| (i * 250) as nat),
            DAEMON_REACHABLE_TIMEOUT_MS as nat,
        ),
{
    if keeps_waiting(ends, DAEMON_REACHABLE_TIMEOUT_MS as nat) && ends.len() > 0 {
        waiting_is_bounded(ends, DAEMON_REACHABLE_TIMEOUT_MS as nat);
    }
}

} // verus!
