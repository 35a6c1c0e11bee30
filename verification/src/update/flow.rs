//! The course of an update, from the first query to the install.

use vstd::prelude::*;

use crate::platform::Platform;
use crate::update::{update_decision, UpdateDecision, UpdateRequest};

verus! {

/// A step of an update.
#[derive(Clone, Copy, Debug, PartialEq, Eq, Structural)]
pub enum UpdateStep {
    /// Name the asset that is released for this machine, before anything goes over the
    /// network.
    NameAsset,
    /// List the releases there are.
    ListReleases,
    /// Ask for the release.
    QueryRelease,
    /// Fetch the checksum published with the release.
    FetchChecksum,
    /// Fetch the release's identity and look up the installed one, for the Windows installer.
    CompareInstaller,
    /// Compute the running binary's own checksum.
    ReadOwnBinary,
    /// Print what runs and what there is.
    ReportHead,
    /// Print what the release would bring.
    ReportChanges,
    /// Print that nothing is to be done, or how to upgrade.
    ReportTail,
    /// Say that nothing is to be done.
    SayCurrent,
    /// Print what the release brings, before it is installed.
    ShowChanges,
    /// Install the release.
    Install,
    /// The update ended well.
    Finished,
    /// The update ended with an error.
    Failed,
}

/// What is done once everything that decides is known.
pub open spec fn decided(request: UpdateRequest, current: bool) -> UpdateStep {
    if request.check {
        UpdateStep::ReportHead
    } else if current && !request.force {
        UpdateStep::SayCurrent
    } else {
        UpdateStep::ShowChanges
    }
}

/// What is looked at to tell whether the release is the one that runs: on Windows the
/// installer's record; on the nightly channel the running binary; else nothing more than the
/// versions, which are known.
pub open spec fn compare(platform: Platform, request: UpdateRequest, current: bool) -> UpdateStep {
    if platform == Platform::Windows {
        UpdateStep::CompareInstaller
    } else if request.nightly && !request.pinned() {
        UpdateStep::ReadOwnBinary
    } else {
        decided(request, current)
    }
}

/// What follows a step that succeeded or not. `current` says whether the release is the one
/// that runs, as far as that is known by then; what is printed cannot fail, and a binary that
/// cannot be read stops nothing.
pub open spec fn update_after(
    platform: Platform,
    request: UpdateRequest,
    step: UpdateStep,
    ok: bool,
    current: bool,
) -> UpdateStep {
    match step {
        UpdateStep::NameAsset if ok => if request.list {
            UpdateStep::ListReleases
        } else {
            UpdateStep::QueryRelease
        },
        UpdateStep::ListReleases if ok => UpdateStep::Finished,
        UpdateStep::QueryRelease if ok => UpdateStep::FetchChecksum,
        UpdateStep::FetchChecksum if ok => compare(platform, request, current),
        UpdateStep::CompareInstaller if ok => decided(request, current),
        UpdateStep::ReadOwnBinary => decided(request, current),
        UpdateStep::ReportHead => if current {
            UpdateStep::ReportTail
        } else {
            UpdateStep::ReportChanges
        },
        UpdateStep::ReportChanges => UpdateStep::ReportTail,
        UpdateStep::ReportTail => UpdateStep::Finished,
        UpdateStep::SayCurrent => UpdateStep::Finished,
        UpdateStep::ShowChanges => UpdateStep::Install,
        UpdateStep::Install if ok => UpdateStep::Finished,
        UpdateStep::Finished => UpdateStep::Finished,
        _ => UpdateStep::Failed,
    }
}

fn decide(request: &UpdateRequest, current: bool) -> (r: UpdateStep)
    ensures
        r == decided(*request, current),
{
    match update_decision(request, current) {
        UpdateDecision::Report => UpdateStep::ReportHead,
        UpdateDecision::AlreadyCurrent => UpdateStep::SayCurrent,
        UpdateDecision::Install => UpdateStep::ShowChanges,
    }
}

/// Goes on with an update, once a step succeeded or not.
pub fn next_update_step(
    platform: Platform,
    request: &UpdateRequest,
    step: UpdateStep,
    ok: bool,
    current: bool,
) -> (r: UpdateStep)
    ensures
        r == update_after(platform, *request, step, ok, current),
{
    match step {
        UpdateStep::ReadOwnBinary => decide(request, current),
        UpdateStep::ReportHead => if current {
            UpdateStep::ReportTail
        } else {
            UpdateStep::ReportChanges
        },
        UpdateStep::ReportChanges => UpdateStep::ReportTail,
        UpdateStep::ReportTail | UpdateStep::SayCurrent | UpdateStep::Finished =>
            UpdateStep::Finished,
        UpdateStep::ShowChanges => UpdateStep::Install,
        UpdateStep::Failed => UpdateStep::Failed,
        _ => if !ok {
            UpdateStep::Failed
        } else {
            match step {
                UpdateStep::NameAsset => if request.list {
                    UpdateStep::ListReleases
                } else {
                    UpdateStep::QueryRelease
                },
                UpdateStep::QueryRelease => UpdateStep::FetchChecksum,
                UpdateStep::FetchChecksum => if matches!(platform, Platform::Windows) {
                    UpdateStep::CompareInstaller
                } else if request.nightly && request.version.is_none() {
                    UpdateStep::ReadOwnBinary
                } else {
                    decide(request, current)
                },
                UpdateStep::CompareInstaller => decide(request, current),
                _ => UpdateStep::Finished,
            }
        },
    }
}

/// The step an update is at once the steps before it ended as `outcomes` says.
pub open spec fn update_step_at(
    platform: Platform,
    request: UpdateRequest,
    outcomes: Seq<bool>,
    current: bool,
) -> UpdateStep
    decreases outcomes.len(),
{
    if outcomes.len() == 0 {
        UpdateStep::NameAsset
    } else {
        update_after(
            platform,
            request,
            update_step_at(platform, request, outcomes.drop_last(), current),
            outcomes.last(),
            current,
        )
    }
}

/// Whether a request may be at a step.
pub open spec fn may_be_at(request: UpdateRequest, step: UpdateStep, current: bool) -> bool {
    match step {
        UpdateStep::ShowChanges | UpdateStep::Install => !request.list && !request.check && (!current
            || request.force),
        UpdateStep::SayCurrent => !request.list && !request.check && current && !request.force,
        UpdateStep::ReportHead | UpdateStep::ReportTail => !request.list && request.check,
        UpdateStep::ReportChanges => !request.list && request.check && !current,
        UpdateStep::ListReleases => request.list,
        UpdateStep::NameAsset | UpdateStep::Finished | UpdateStep::Failed => true,
        _ => !request.list,
    }
}

/// However the steps end, an update does only what was asked for: a check installs nothing,
/// a list prints a list and no more, and a release that runs already is installed again only
/// by force.
pub proof fn an_update_does_only_what_was_asked(
    platform: Platform,
    request: UpdateRequest,
    outcomes: Seq<bool>,
    current: bool,
)
    ensures
        may_be_at(request, update_step_at(platform, request, outcomes, current), current),
    decreases outcomes.len(),
{
    if outcomes.len() > 0 {
        an_update_does_only_what_was_asked(platform, request, outcomes.drop_last(), current);
    }
}

/// A machine that nothing is released for fails before anything goes over the network.
pub proof fn unsupported_machines_fail_at_once(
    platform: Platform,
    request: UpdateRequest,
    outcomes: Seq<bool>,
    current: bool,
)
    requires
        outcomes.len() > 0,
        !outcomes[0],
    ensures
        update_step_at(platform, request, outcomes, current) == UpdateStep::Failed,
    decreases outcomes.len(),
{
    let before = outcomes.drop_last();
    if before.len() > 0 {
        unsupported_machines_fail_at_once(platform, request, before, current);
    } else {
        assert(update_step_at(platform, request, before, current) == UpdateStep::NameAsset);
        assert(outcomes.last() == outcomes[0]);
    }
}

/// `n` steps that all succeeded.
pub open spec fn all_well(n: nat) -> Seq<bool> {
    Seq::new(n, |i: int| true)
}

/// Where nothing stops it, an update ends with the install: a release that does not run, or
/// one that is forced, is installed as long as every step succeeds.
pub proof fn an_update_reaches_the_install(platform: Platform, request: UpdateRequest, current: bool)
    requires
        !request.list,
        !request.check,
        !current || request.force,
    ensures
        exists|n: nat|
            update_step_at(platform, request, #[trigger] all_well(n), current)
                == UpdateStep::Install,
{
    assert(update_step_at(platform, request, all_well(0), current) == UpdateStep::NameAsset);
    lemma_one_more(platform, request, current, 1);
    lemma_one_more(platform, request, current, 2);
    lemma_one_more(platform, request, current, 3);
    lemma_one_more(platform, request, current, 4);
    lemma_one_more(platform, request, current, 5);
    let third = update_step_at(platform, request, all_well(3), current);
    assert(third == compare(platform, request, current));
    if third == UpdateStep::ShowChanges {
        assert(update_step_at(platform, request, all_well(4), current) == UpdateStep::Install);
    } else {
        assert(update_step_at(platform, request, all_well(5), current) == UpdateStep::Install);
    }
}

proof fn lemma_one_more(platform: Platform, request: UpdateRequest, current: bool, n: nat)
    requires
        n > 0,
    ensures
        update_step_at(platform, request, all_well(n), current) == update_after(
            platform,
            request,
            update_step_at(platform, request, all_well((n - 1) as nat), current),
            true,
            current,
        ),
{
    assert(all_well(n).drop_last() =~= all_well((n - 1) as nat));
}

} // verus!
