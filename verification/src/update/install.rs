//! Putting a release in place, step by step.

use vstd::prelude::*;

use crate::platform::Platform;
use crate::text::{opt_text, starts_with};
use crate::update::update_label;

verus! {

/// What an install needs to know of the machine before it begins.
#[derive(Clone, Copy, Debug, PartialEq, Eq, Structural)]
pub struct InstallSite {
    pub platform: Platform,
    /// Whether the system service is installed.
    pub service_installed: bool,
    /// Whether the directory of the running binary can be written to, where it has one.
    pub exe_dir_writable: Option<bool>,
}

/// Whether an install needs root: to restart the service, or to replace a binary in a
/// directory that only root can write to.
pub open spec fn needs_root(site: InstallSite) -> bool {
    site.service_installed || site.exe_dir_writable != Some(true)
}

/// A step of an install.
#[derive(Clone, Copy, Debug, PartialEq, Eq, Structural)]
pub enum InstallStep {
    /// Make sure that the process is root.
    RequireRoot,
    /// Make sure that the process is an elevated administrator's.
    RequireElevation,
    /// Download the asset, verify its checksum and swap the running binary for it.
    DownloadAndSwap,
    /// Download the installer and verify its checksum.
    DownloadInstaller,
    /// Schedule the downloaded installer.
    ScheduleInstaller,
    /// Rewrite the service's unit and restart the daemon onto the new binary.
    RestartService,
    /// The release is in place, and no service is there to restart.
    Done,
    /// The service runs the new binary.
    Restarted,
    /// The installer is scheduled.
    Scheduled,
    /// A step failed.
    Failed,
}

/// Where an install begins. What it needs is asked for before anything is downloaded.
pub open spec fn first_step(site: InstallSite) -> InstallStep {
    if site.platform == Platform::Windows {
        InstallStep::RequireElevation
    } else if needs_root(site) {
        InstallStep::RequireRoot
    } else {
        InstallStep::DownloadAndSwap
    }
}

/// What follows a step that succeeded or not.
pub open spec fn step_after(site: InstallSite, step: InstallStep, ok: bool) -> InstallStep {
    match step {
        InstallStep::RequireRoot if ok => InstallStep::DownloadAndSwap,
        InstallStep::RequireElevation if ok => InstallStep::DownloadInstaller,
        InstallStep::DownloadAndSwap if ok => if site.service_installed {
            InstallStep::RestartService
        } else {
            InstallStep::Done
        },
        InstallStep::DownloadInstaller if ok => InstallStep::ScheduleInstaller,
        InstallStep::ScheduleInstaller if ok => InstallStep::Scheduled,
        InstallStep::RestartService if ok => InstallStep::Restarted,
        InstallStep::Done => InstallStep::Done,
        InstallStep::Restarted => InstallStep::Restarted,
        InstallStep::Scheduled => InstallStep::Scheduled,
        _ => InstallStep::Failed,
    }
}

/// Where an install begins.
pub fn begin_install(site: InstallSite) -> (r: InstallStep)
    ensures
        r == first_step(site),
{
    if matches!(site.platform, Platform::Windows) {
        return InstallStep::RequireElevation;
    }
    let writable: bool = match site.exe_dir_writable {
        Some(w) => w,
        None => false,
    };
    if site.service_installed || !writable {
        InstallStep::RequireRoot
    } else {
        InstallStep::DownloadAndSwap
    }
}

/// Goes on with an install, once a step succeeded or not.
pub fn next_install_step(site: InstallSite, step: InstallStep, ok: bool) -> (r: InstallStep)
    ensures
        r == step_after(site, step, ok),
{
    match step {
        InstallStep::Done => InstallStep::Done,
        InstallStep::Restarted => InstallStep::Restarted,
        InstallStep::Scheduled => InstallStep::Scheduled,
        InstallStep::Failed => InstallStep::Failed,
        _ => if !ok {
            InstallStep::Failed
        } else {
            match step {
                InstallStep::RequireRoot => InstallStep::DownloadAndSwap,
                InstallStep::RequireElevation => InstallStep::DownloadInstaller,
                InstallStep::DownloadAndSwap => if site.service_installed {
                    InstallStep::RestartService
                } else {
                    InstallStep::Done
                },
                InstallStep::DownloadInstaller => InstallStep::ScheduleInstaller,
                InstallStep::ScheduleInstaller => InstallStep::Scheduled,
                _ => InstallStep::Restarted,
            }
        },
    }
}

/// The step an install is at once the steps before it ended as `outcomes` says.
pub open spec fn step_at(site: InstallSite, outcomes: Seq<bool>) -> InstallStep
    decreases outcomes.len(),
{
    if outcomes.len() == 0 {
        first_step(site)
    } else {
        step_after(site, step_at(site, outcomes.drop_last()), outcomes.last())
    }
}

/// Whether a step downloads something.
pub open spec fn downloads(step: InstallStep) -> bool {
    step == InstallStep::DownloadAndSwap || step == InstallStep::DownloadInstaller
}

/// Nothing is downloaded before the process has what the install needs: where that is
/// root, or elevation, the first step asks for it, and an install whose first step failed
/// never downloads.
pub proof fn privilege_comes_before_the_download(site: InstallSite, outcomes: Seq<bool>)
    requires
        downloads(step_at(site, outcomes)),
    ensures
        site.platform == Platform::Windows || needs_root(site) ==> outcomes.len() == 1
            && outcomes[0],
        site.platform != Platform::Windows && !needs_root(site) ==> outcomes.len() == 0,
{
    if outcomes.len() > 0 {
        let before = outcomes.drop_last();
        let prior = step_at(site, before);
        assert(prior == InstallStep::RequireRoot || prior == InstallStep::RequireElevation);
        if before.len() > 0 {
            lemma_later_steps(site, before);
        }
        assert(before =~= seq![]);
        assert(outcomes.last() == outcomes[0]);
    }
}

proof fn lemma_later_steps(site: InstallSite, outcomes: Seq<bool>)
    requires
        outcomes.len() > 0,
    ensures
        step_at(site, outcomes) != InstallStep::RequireRoot,
        step_at(site, outcomes) != InstallStep::RequireElevation,
{
    let prior = step_at(site, outcomes.drop_last());
    assert(step_at(site, outcomes) == step_after(site, prior, outcomes.last()));
}

/// A failed step ends an install: nothing after it is done.
pub proof fn failure_ends_an_install(site: InstallSite, outcomes: Seq<bool>, later: Seq<bool>)
    requires
        step_at(site, outcomes) == InstallStep::Failed,
    ensures
        step_at(site, outcomes + later) == InstallStep::Failed,
    decreases later.len(),
{
    if later.len() == 0 {
        assert(outcomes + later =~= outcomes);
    } else {
        failure_ends_an_install(site, outcomes, later.drop_last());
        assert((outcomes + later).drop_last() =~= outcomes + later.drop_last());
    }
}

/// What is shown while an asset is downloaded.
pub fn download_progress(asset: &str, label: &str) -> (r: String)
    ensures
        r@ == "downloading "@ + asset@ + " ("@ + label@ + ")…"@,
{
    let mut out = String::new();
    out.push_str("downloading ");
    out.push_str(asset);
    out.push_str(" (");
    out.push_str(label);
    out.push_str(")…");
    out
}

/// What the user is told once the binary is swapped.
pub open spec fn swapped_message(
    current: Seq<char>,
    label: Seq<char>,
    git_sha: Seq<char>,
) -> Seq<char> {
    "updated rayfish "@ + (if starts_with(label, "nightly"@) {
        "nightly ("@ + git_sha + ")"@
    } else {
        "v"@ + current
    }) + " → "@ + label
}

/// What the user is told once the binary is swapped.
pub fn swapped(current: &str, label: &str, git_sha: &str) -> (r: String)
    ensures
        r@ == swapped_message(current@, label@, git_sha@),
{
    let mut out = String::new();
    out.push_str("updated rayfish ");
    out.push_str(update_label(current, label, git_sha).as_str());
    out.push_str(" → ");
    out.push_str(label);
    assert(out@ =~= swapped_message(current@, label@, git_sha@));
    out
}

/// What the user is told once the installer is scheduled. A version that is not on record
/// is taken to be the one that runs.
pub fn scheduled(installed: &Option<String>, current: &str, label: &str) -> (r: String)
    ensures
        r@ == "scheduled detached Windows MSI update v"@ + (match opt_text(*installed) {
            Some(v) => v,
            None => current@,
        }) + " → "@ + label@,
{
    let mut out = String::new();
    out.push_str("scheduled detached Windows MSI update v");
    match installed {
        Some(v) => out.push_str(v.as_str()),
        None => out.push_str(current),
    }
    out.push_str(" → ");
    out.push_str(label);
    out
}

/// The last word of an install, where it has one: why it cannot go on without elevation, or
/// how to start the service when none was there to restart.
pub fn parting_message(step: InstallStep) -> (r: Option<String>)
    ensures
        opt_text(r) == (match step {
            InstallStep::RequireElevation => Some(
                "Windows MSI update requires an elevated Administrator terminal; reopen PowerShell as Administrator and retry"@,
            ),
            InstallStep::Done => Some("run `sudo ray up` to start the service with the new binary"@),
            _ => None,
        }),
        r is Some <==> step == InstallStep::RequireElevation || step == InstallStep::Done,
{
    match step {
        InstallStep::RequireElevation => Some(
            "Windows MSI update requires an elevated Administrator terminal; reopen PowerShell as Administrator and retry".to_owned(),
        ),
        InstallStep::Done => Some(
            "run `sudo ray up` to start the service with the new binary".to_owned(),
        ),
        _ => None,
    }
}

} // verus!
