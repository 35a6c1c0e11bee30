use rayfish::command::CommandOutcome;
use rayfish::platform::Platform;
use rayfish::update::changelog::{
    print_pending_changelog, print_release_notes, update_list, Release,
};
use rayfish::update::daemon::{
    daemon_log, daemon_version, print_daemon_log_tail, run_cmd, wait_for_daemon, LogSource,
    WaitStep, DAEMON_REACHABLE_TIMEOUT_MS,
};
use rayfish::update::flow::{next_update_step, UpdateStep};
use rayfish::update::flow::UpdateStep::{
    CompareInstaller, FetchChecksum, Finished, Install, ListReleases, NameAsset, QueryRelease,
    ReadOwnBinary, ReportChanges, ReportHead, ReportTail, SayCurrent, ShowChanges,
};
use rayfish::update::install::{
    begin_install, download_progress, next_install_step, parting_message, scheduled, swapped,
    InstallSite, InstallStep,
};
use rayfish::update::pages::{changelog_url, next_walk_step, WalkStep, RELEASES_PER_PAGE};
use rayfish::update::ranking::{rank_as_listed, rank_by_version};
use rayfish::update::service::{
    cmd_uninstall_service, stops_the_run, ServiceState, UninstallStep,
};
use rayfish::update::{
    already_current, asset_url, check_head, check_tail, first_query, install_identity,
    remote_label, tag_of_version, up_to_date, update_decision, update_label, FirstQuery, Standing,
    UpdateDecision, UpdateRequest,
};

const SLUG: &str = "rayfish/rayfish";

fn request() -> UpdateRequest {
    UpdateRequest {
        force: false,
        check: false,
        nightly: false,
        list: false,
        version: None,
    }
}

fn standing() -> Standing {
    Standing {
        current: "1.2.0".to_string(),
        latest: "1.3.0".to_string(),
        newer: true,
        published: "abc".to_string(),
        own: Some("def".to_string()),
        installed: Some("1.2.0.0".to_string()),
        identity: "1.3.0.0".to_string(),
    }
}

fn release(tag: &str, body: Option<&str>) -> Release {
    Release {
        tag_name: tag.to_string(),
        name: None,
        body: body.map(str::to_string),
        prerelease: false,
        version: tag.trim_start_matches('v').to_string(),
        newer_than_current: true,
        newer_than_target: false,
        rank: 0,
    }
}

/// The steps a request goes through when everything succeeds.
fn course(platform: Platform, request: &UpdateRequest, current: bool) -> Vec<UpdateStep> {
    let mut step = UpdateStep::NameAsset;
    let mut seen = vec![step];
    while !matches!(step, UpdateStep::Finished | UpdateStep::Failed) {
        step = next_update_step(platform, request, step, true, current);
        seen.push(step);
    }
    seen
}

#[test]
fn a_version_is_pinned_with_or_without_its_v() {
    assert_eq!(tag_of_version("1.2.3"), "v1.2.3");
    assert_eq!(tag_of_version("v1.2.3"), "v1.2.3");
    assert_eq!(tag_of_version(""), "v");
}

#[test]
fn the_query_follows_the_channel() {
    let url = |request: &UpdateRequest| match first_query(request, SLUG) {
        FirstQuery::Release { url, failure } => (url, failure),
        FirstQuery::List { url, failure } => (url, failure),
    };
    assert_eq!(
        url(&request()),
        (
            "https://api.github.com/repos/rayfish/rayfish/releases/latest".to_string(),
            "failed to query the GitHub releases API (is a release published yet?)".to_string()
        )
    );
    let mut nightly = request();
    nightly.nightly = true;
    assert_eq!(
        url(&nightly),
        (
            "https://api.github.com/repos/rayfish/rayfish/releases/tags/nightly".to_string(),
            "failed to query the nightly pre-release (is one published yet?)".to_string()
        )
    );
    // A pinned version outranks the channel.
    nightly.version = Some("1.0.0".to_string());
    assert_eq!(
        url(&nightly),
        (
            "https://api.github.com/repos/rayfish/rayfish/releases/tags/v1.0.0".to_string(),
            "failed to find release v1.0.0 (see `ray update --list`)".to_string()
        )
    );
    let mut list = request();
    list.list = true;
    assert!(matches!(first_query(&list, SLUG), FirstQuery::List { .. }));
    assert_eq!(
        url(&list),
        (
            "https://api.github.com/repos/rayfish/rayfish/releases?per_page=30".to_string(),
            "failed to list releases".to_string()
        )
    );
}

#[test]
fn labels_and_urls_name_the_release() {
    let mut r = release("v1.3.0", None);
    assert_eq!(remote_label(false, &r), "v1.3.0");
    assert_eq!(remote_label(true, &r), "nightly");
    r.name = Some("nightly (abc1234)".to_string());
    assert_eq!(remote_label(true, &r), "nightly (abc1234)");
    assert_eq!(
        asset_url(SLUG, "v1.3.0", "ray-linux"),
        "https://github.com/rayfish/rayfish/releases/download/v1.3.0/ray-linux"
    );
    assert_eq!(update_label("1.2.0", "v1.3.0", "abc1234"), "v1.2.0");
    assert_eq!(
        update_label("1.2.0", "nightly (def)", "abc1234"),
        "nightly (abc1234)"
    );
}

#[test]
fn stable_goes_by_the_order_of_versions() {
    let mut s = standing();
    assert!(!up_to_date(Platform::Linux, &request(), &s));
    s.newer = false;
    assert!(up_to_date(Platform::Linux, &request(), &s));
}

#[test]
fn pinning_can_go_back() {
    let mut pinned = request();
    pinned.version = Some("1.0.0".to_string());
    let mut s = standing();
    s.latest = "1.0.0".to_string();
    s.newer = false;
    assert!(!up_to_date(Platform::MacOs, &pinned, &s));
    s.current = "1.0.0".to_string();
    assert!(up_to_date(Platform::MacOs, &pinned, &s));
}

#[test]
fn nightlies_go_by_their_checksum() {
    let mut nightly = request();
    nightly.nightly = true;
    let mut s = standing();
    assert!(!up_to_date(Platform::Linux, &nightly, &s));
    s.own = Some("abc".to_string());
    assert!(up_to_date(Platform::Linux, &nightly, &s));
    s.own = None;
    assert!(!up_to_date(Platform::Linux, &nightly, &s));
}

#[test]
fn windows_goes_by_the_installers_record() {
    let mut s = standing();
    assert!(!up_to_date(Platform::Windows, &request(), &s));
    s.installed = Some("1.3.0.0".to_string());
    assert!(up_to_date(Platform::Windows, &request(), &s));
    s.installed = None;
    assert!(!up_to_date(Platform::Windows, &request(), &s));
    assert_eq!(install_identity(Platform::Windows, &s), "1.3.0.0");
    assert_eq!(install_identity(Platform::Linux, &s), "1.3.0");
}

#[test]
fn a_check_only_reports_and_force_reinstalls() {
    let mut r = request();
    assert_eq!(update_decision(&r, false), UpdateDecision::Install);
    assert_eq!(update_decision(&r, true), UpdateDecision::AlreadyCurrent);
    r.force = true;
    assert_eq!(update_decision(&r, true), UpdateDecision::Install);
    r.check = true;
    assert_eq!(update_decision(&r, true), UpdateDecision::Report);
    assert_eq!(
        already_current("v1.3.0"),
        "rayfish is already up to date (v1.3.0)"
    );
}

#[test]
fn a_check_names_a_stale_daemon_and_the_way_to_upgrade() {
    assert_eq!(
        check_head("1.2.0 (abc)", "v1.3.0", Some("1.1.0".to_string()), "1.2.0"),
        [
            "current: 1.2.0 (abc)",
            "latest:  v1.3.0",
            "daemon:  1.1.0 (stale — run `sudo ray update` to restart it)",
        ]
    );
    assert_eq!(
        check_head("1.2.0 (abc)", "v1.3.0", Some("1.2.0".to_string()), "1.2.0").len(),
        2
    );
    assert_eq!(check_head("1.2.0 (abc)", "v1.3.0", None, "1.2.0").len(), 2);
    let mut r = request();
    assert_eq!(check_tail(&r, true), "rayfish is up to date");
    assert_eq!(check_tail(&r, false), "run `sudo ray update` to upgrade");
    r.version = Some("1.0.0".to_string());
    assert_eq!(
        check_tail(&r, false),
        "run `sudo ray update --version 1.0.0` to upgrade"
    );
    r.nightly = true;
    assert_eq!(check_tail(&r, false), "run `sudo ray update --nightly` to upgrade");
}

#[test]
fn an_update_takes_its_course() {
    let mut r = request();
    assert_eq!(
        course(Platform::Linux, &r, false),
        [NameAsset, QueryRelease, FetchChecksum, ShowChanges, Install, Finished]
    );
    assert_eq!(
        course(Platform::Windows, &r, true),
        [NameAsset, QueryRelease, FetchChecksum, CompareInstaller, SayCurrent, Finished]
    );
    r.nightly = true;
    r.check = true;
    assert_eq!(
        course(Platform::Linux, &r, false),
        [
            NameAsset,
            QueryRelease,
            FetchChecksum,
            ReadOwnBinary,
            ReportHead,
            ReportChanges,
            ReportTail,
            Finished
        ]
    );
    r.version = Some("1.0.0".to_string());
    assert_eq!(
        course(Platform::Linux, &r, true),
        [NameAsset, QueryRelease, FetchChecksum, ReportHead, ReportTail, Finished]
    );
    r.list = true;
    assert_eq!(
        course(Platform::Linux, &r, false),
        [NameAsset, ListReleases, Finished]
    );
}

#[test]
fn only_what_must_succeed_stops_an_update() {
    let r = request();
    let next = |step| next_update_step(Platform::Linux, &r, step, false, false);
    assert_eq!(next(UpdateStep::NameAsset), UpdateStep::Failed);
    assert_eq!(next(UpdateStep::QueryRelease), UpdateStep::Failed);
    assert_eq!(next(UpdateStep::FetchChecksum), UpdateStep::Failed);
    assert_eq!(next(UpdateStep::CompareInstaller), UpdateStep::Failed);
    assert_eq!(next(UpdateStep::ReadOwnBinary), UpdateStep::ShowChanges);
    assert_eq!(next(UpdateStep::Install), UpdateStep::Failed);
    assert_eq!(next(UpdateStep::Failed), UpdateStep::Failed);
}

#[test]
fn release_notes_stand_under_their_tag() {
    assert_eq!(
        print_release_notes("v1.3.0", &Some("\n- one\r\n- two\n\n".to_string())),
        ["", "  v1.3.0", "    - one", "    - two"]
    );
    assert_eq!(print_release_notes("v1.3.0", &Some(" \n".to_string())), ["", "  v1.3.0"]);
    assert_eq!(print_release_notes("v1.3.0", &None), ["", "  v1.3.0"]);
}

#[test]
fn the_stable_changelog_passes_every_release_on_the_way() {
    let mut beyond = release("v1.4.0", Some("later"));
    beyond.newer_than_target = true;
    let mut pre = release("v1.3.0-rc1", Some("candidate"));
    pre.prerelease = true;
    let mut old = release("v1.2.0", Some("current"));
    old.newer_than_current = false;
    let target = release("v1.3.0", Some("target"));
    let list = vec![
        beyond,
        release("v1.3.0", Some("target")),
        pre,
        release("v1.2.1", None),
        old,
    ];
    assert_eq!(
        print_pending_changelog("1.2.0", "1.3.0", &target, &list, false, false),
        [
            "",
            "Changes in v1.2.0 → v1.3.0:",
            "",
            "  v1.3.0",
            "    target",
            "",
            "  v1.2.1",
            "",
        ]
    );
    assert!(
        print_pending_changelog("1.2.0", "1.3.0", &target, &vec![], false, false).is_empty()
    );
    assert_eq!(
        changelog_url(SLUG, false, false, 1).as_deref(),
        Some("https://api.github.com/repos/rayfish/rayfish/releases?per_page=100")
    );
}

#[test]
fn the_newest_release_comes_first_however_they_are_listed() {
    let ranked = |tag: &str, rank: u64| {
        let mut r = release(tag, Some(tag));
        r.rank = rank;
        r
    };
    let list = vec![
        ranked("v1.2.1", 1),
        ranked("v1.3.0", 3),
        ranked("v1.2.2", 2),
        ranked("v1.2.2+again", 2),
    ];
    let target = release("v1.3.0", None);
    let shown = print_pending_changelog("1.2.0", "1.3.0", &target, &list, false, false);
    let tags: Vec<&str> = shown
        .iter()
        .filter_map(|l| l.strip_prefix("  v"))
        .collect();
    assert_eq!(tags, ["1.3.0", "1.2.2", "1.2.2+again", "1.2.1"]);
    assert_eq!(
        update_list(&list, "1.2.1"),
        ["v1.3.0", "v1.2.2", "v1.2.2+again", "v1.2.1  (installed)"]
    );
}

#[test]
fn a_single_release_speaks_for_itself() {
    let nightly = release("nightly", Some("commit abc"));
    assert_eq!(
        print_pending_changelog("1.2.0", "nightly", &nightly, &vec![], true, false),
        [
            "",
            "Release notes for nightly:",
            "",
            "  nightly",
            "    commit abc",
            "",
        ]
    );
    let silent = release("v1.0.0", Some("  \n "));
    assert!(print_pending_changelog("1.2.0", "1.0.0", &silent, &vec![], false, true).is_empty());
    assert_eq!(changelog_url(SLUG, true, false, 1), None);
    assert_eq!(changelog_url(SLUG, false, true, 1), None);
}

#[test]
fn later_pages_are_asked_for_by_number() {
    assert_eq!(
        changelog_url(SLUG, false, false, 2).as_deref(),
        Some("https://api.github.com/repos/rayfish/rayfish/releases?per_page=100&page=2")
    );
    assert_eq!(
        changelog_url(SLUG, false, false, 12).as_deref(),
        Some("https://api.github.com/repos/rayfish/rayfish/releases?per_page=100&page=12")
    );
    assert_eq!(changelog_url(SLUG, true, false, 2), None);
}

#[test]
fn a_full_page_is_followed_by_another() {
    assert_eq!(next_walk_step(1, Some(0)), WalkStep::Show);
    assert_eq!(next_walk_step(1, Some(99)), WalkStep::Show);
    assert_eq!(next_walk_step(1, Some(100)), WalkStep::Ask(2));
    assert_eq!(next_walk_step(7, Some(100)), WalkStep::Ask(8));
    assert_eq!(next_walk_step(u64::MAX, Some(100)), WalkStep::Show);
    // One page that cannot be had, and nothing is shown.
    assert_eq!(next_walk_step(1, None), WalkStep::GiveUp);
    assert_eq!(next_walk_step(3, None), WalkStep::GiveUp);
}

#[test]
fn every_published_release_is_walked() {
    let published: Vec<usize> = (0..250).collect();
    let mut walked = Vec::new();
    let mut asked = Vec::new();
    let mut step = WalkStep::Ask(1);
    while let WalkStep::Ask(page) = step {
        asked.push(page);
        let start = (page as usize - 1) * RELEASES_PER_PAGE;
        let end = published.len().min(start + RELEASES_PER_PAGE);
        walked.extend_from_slice(&published[start..end]);
        step = next_walk_step(page, Some(end - start));
    }
    assert_eq!(step, WalkStep::Show);
    assert_eq!(asked, [1, 2, 3]);
    assert_eq!(walked, published);
}

#[test]
fn a_newer_version_ranks_higher() {
    // 1.2.9, 1.3.0, 1.2.10 and 1.3.0 once more.
    let order = [1, 3, 2, 3];
    let newer: Vec<Vec<bool>> = order
        .iter()
        .map(|a| order.iter().map(|b| a > b).collect())
        .collect();
    let mut list = vec![
        release("v1.2.9", Some("nine")),
        release("v1.3.0", Some("three")),
        release("v1.2.10", Some("ten")),
        release("v1.3.0+again", Some("again")),
    ];
    rank_by_version(&mut list, &newer);
    let ranks: Vec<u64> = list.iter().map(|r| r.rank).collect();
    assert_eq!(ranks, [0, 2, 1, 2]);
    assert_eq!(list[2].tag_name, "v1.2.10");
    assert_eq!(list[2].body.as_deref(), Some("ten"));
    let target = release("v1.3.0", None);
    let shown = print_pending_changelog("1.2.0", "1.3.0", &target, &list, false, false);
    let tags: Vec<&str> = shown
        .iter()
        .filter_map(|l| l.strip_prefix("  v"))
        .collect();
    assert_eq!(tags, ["1.3.0", "1.3.0+again", "1.2.10", "1.2.9"]);
    // Without answers none is newer than another.
    rank_by_version(&mut list, &vec![]);
    assert!(list.iter().all(|r| r.rank == 0));
}

#[test]
fn a_list_is_ranked_as_it_stands() {
    let mut list = vec![
        release("nightly", None),
        release("v1.3.0", None),
        release("v1.2.0", None),
    ];
    rank_as_listed(&mut list);
    let ranks: Vec<u64> = list.iter().map(|r| r.rank).collect();
    assert_eq!(ranks, [2, 1, 0]);
    assert_eq!(update_list(&list, "0.9.0"), ["nightly", "v1.3.0", "v1.2.0"]);
    let mut none: Vec<Release> = vec![];
    rank_as_listed(&mut none);
    assert!(none.is_empty());
}

#[test]
fn the_list_marks_what_runs() {
    let mut pre = release("nightly", None);
    pre.prerelease = true;
    let list = vec![pre, release("v1.3.0", None), release("v1.2.0", None)];
    assert_eq!(
        update_list(&list, "1.2.0"),
        ["nightly  [pre-release]", "v1.3.0", "v1.2.0  (installed)"]
    );
    assert_eq!(update_list(&vec![], "1.2.0"), ["no releases published yet"]);
}

#[test]
fn an_install_asks_for_what_it_needs_first() {
    let mut site = InstallSite {
        platform: Platform::Linux,
        service_installed: false,
        exe_dir_writable: Some(true),
    };
    assert_eq!(begin_install(site), InstallStep::DownloadAndSwap);
    assert_eq!(
        next_install_step(site, InstallStep::DownloadAndSwap, true),
        InstallStep::Done
    );
    site.exe_dir_writable = Some(false);
    assert_eq!(begin_install(site), InstallStep::RequireRoot);
    site.exe_dir_writable = None;
    assert_eq!(begin_install(site), InstallStep::RequireRoot);
    site.exe_dir_writable = Some(true);
    site.service_installed = true;
    assert_eq!(begin_install(site), InstallStep::RequireRoot);
    assert_eq!(
        next_install_step(site, InstallStep::RequireRoot, false),
        InstallStep::Failed
    );
    assert_eq!(
        next_install_step(site, InstallStep::RequireRoot, true),
        InstallStep::DownloadAndSwap
    );
    assert_eq!(
        next_install_step(site, InstallStep::DownloadAndSwap, true),
        InstallStep::RestartService
    );
    assert_eq!(
        next_install_step(site, InstallStep::RestartService, true),
        InstallStep::Restarted
    );
}

#[test]
fn windows_schedules_its_installer() {
    let site = InstallSite {
        platform: Platform::Windows,
        service_installed: false,
        exe_dir_writable: Some(true),
    };
    let mut step = begin_install(site);
    assert_eq!(step, InstallStep::RequireElevation);
    assert_eq!(
        parting_message(step).as_deref(),
        Some("Windows MSI update requires an elevated Administrator terminal; reopen PowerShell as Administrator and retry")
    );
    step = next_install_step(site, step, true);
    assert_eq!(step, InstallStep::DownloadInstaller);
    step = next_install_step(site, step, true);
    assert_eq!(step, InstallStep::ScheduleInstaller);
    assert_eq!(next_install_step(site, step, true), InstallStep::Scheduled);
    assert_eq!(next_install_step(site, step, false), InstallStep::Failed);
    assert_eq!(
        scheduled(&Some("1.2.0.0".to_string()), "1.2.0", "v1.3.0"),
        "scheduled detached Windows MSI update v1.2.0.0 → v1.3.0"
    );
    assert_eq!(
        scheduled(&None, "1.2.0", "v1.3.0"),
        "scheduled detached Windows MSI update v1.2.0 → v1.3.0"
    );
}

#[test]
fn an_install_says_what_it_did() {
    assert_eq!(
        download_progress("ray-linux", "v1.3.0"),
        "downloading ray-linux (v1.3.0)…"
    );
    assert_eq!(swapped("1.2.0", "v1.3.0", "abc"), "updated rayfish v1.2.0 → v1.3.0");
    assert_eq!(
        swapped("1.2.0", "nightly (def)", "abc"),
        "updated rayfish nightly (abc) → nightly (def)"
    );
    assert_eq!(
        parting_message(InstallStep::Done).as_deref(),
        Some("run `sudo ray up` to start the service with the new binary")
    );
    assert_eq!(parting_message(InstallStep::Restarted), None);
}

#[test]
fn a_daemon_that_says_no_version_says_nothing() {
    assert_eq!(daemon_version(Some("1.2.0".to_string())).as_deref(), Some("1.2.0"));
    assert_eq!(daemon_version(Some(String::new())), None);
    assert_eq!(daemon_version(None), None);
}

#[test]
fn waiting_ends_with_the_daemon_or_the_deadline() {
    let t = DAEMON_REACHABLE_TIMEOUT_MS;
    assert_eq!(t, 30_000);
    assert_eq!(wait_for_daemon(true, t + 1, t), WaitStep::Connected);
    assert_eq!(wait_for_daemon(false, t - 1, t), WaitStep::Pause(250));
    assert_eq!(wait_for_daemon(false, t, t), WaitStep::GiveUp);
}

#[test]
fn the_last_lines_of_a_log_come_in_order() {
    let log: String = (1..=20).map(|i| format!("line {i}\n")).collect();
    let shown = print_daemon_log_tail("/var/log/rayfish.log", &Ok(log));
    assert_eq!(shown.len(), 17);
    assert_eq!(shown[0], "");
    assert_eq!(shown[1], "Last lines of /var/log/rayfish.log:");
    assert_eq!(shown[2], "  line 6");
    assert_eq!(shown[16], "  line 20");
    assert_eq!(
        print_daemon_log_tail("log", &Ok("a\nb".to_string())),
        ["", "Last lines of log:", "  a", "  b"]
    );
    assert_eq!(
        print_daemon_log_tail("log", &Ok(String::new())),
        ["", "(daemon log log is empty)"]
    );
    assert_eq!(
        print_daemon_log_tail("log", &Err("denied".to_string())),
        ["", "(could not read daemon log log: denied)"]
    );
}

#[test]
fn the_log_is_where_the_platform_keeps_it() {
    match daemon_log(Platform::MacOs) {
        LogSource::File(path) => assert_eq!(path, "/var/log/rayfish.log"),
        _ => panic!("macOS logs to a file"),
    }
    match daemon_log(Platform::Linux) {
        LogSource::Command { title, program, args } => {
            assert_eq!(title, "Recent daemon log (journalctl -u rayfish):");
            assert_eq!(program, "journalctl");
            assert_eq!(args, ["-u", "rayfish", "-n", "15", "--no-pager"]);
        }
        _ => panic!("Linux has a journal"),
    }
    assert!(matches!(daemon_log(Platform::Windows), LogSource::Nowhere));
}

#[test]
fn a_failed_command_is_a_warning() {
    assert_eq!(run_cmd("systemctl", &CommandOutcome::Success), None);
    assert_eq!(
        run_cmd("systemctl", &CommandOutcome::Exited("exit status: 1".to_string())).as_deref(),
        Some("warning: `systemctl` exited with exit status: 1")
    );
    assert_eq!(
        run_cmd("systemctl", &CommandOutcome::NotRun("not found".to_string())).as_deref(),
        Some("warning: failed to run `systemctl`: not found")
    );
}

fn described(platform: Platform, state: &ServiceState) -> Vec<String> {
    cmd_uninstall_service(platform, state)
        .iter()
        .map(|s| match s {
            UninstallStep::RemoveCompletions => "completions".to_string(),
            UninstallStep::DisableUnit => "disable".to_string(),
            UninstallStep::RemoveUnit => "unit".to_string(),
            UninstallStep::Run { program, args } => format!("{program} {}", args.join(" ")),
            UninstallStep::RemoveService => "service".to_string(),
            UninstallStep::RemoveFile(path) => format!("rm {path}"),
            UninstallStep::Say(text) => format!("say {text}"),
            UninstallStep::Refuse(text) => format!("refuse {text}"),
        })
        .collect()
}

#[test]
fn a_service_is_taken_away_where_it_was_put() {
    let mut state = ServiceState {
        installed: true,
        init_label: "systemd".to_string(),
        systemd: true,
    };
    assert_eq!(
        described(Platform::Linux, &state),
        [
            "completions",
            "disable",
            "unit",
            "systemctl daemon-reload",
            "say Removed systemd service.",
        ]
    );
    state.systemd = false;
    state.init_label = "OpenRC".to_string();
    assert_eq!(
        described(Platform::Linux, &state),
        ["completions", "disable", "unit", "say Removed OpenRC service."]
    );
    assert_eq!(
        described(Platform::MacOs, &state),
        [
            "completions",
            "launchctl unload -w /Library/LaunchDaemons/com.rayfish.vpn.plist",
            "rm /Library/LaunchDaemons/com.rayfish.vpn.plist",
            "say Removed launchd daemon.",
        ]
    );
    assert_eq!(
        described(Platform::Windows, &state),
        ["completions", "service", "say Removed Windows service."]
    );
    state.installed = false;
    assert_eq!(
        described(Platform::Linux, &state),
        ["completions", "say Service not installed."]
    );
    assert_eq!(
        described(Platform::OpenBsd, &state),
        [
            "completions",
            "refuse service uninstallation not supported on this platform"
        ]
    );
}

#[test]
fn a_file_that_cannot_be_removed_stops_the_run() {
    assert!(stops_the_run(&UninstallStep::RemoveUnit));
    assert!(stops_the_run(&UninstallStep::RemoveService));
    assert!(stops_the_run(&UninstallStep::RemoveFile("x".to_string())));
    assert!(stops_the_run(&UninstallStep::Refuse("x".to_string())));
    assert!(!stops_the_run(&UninstallStep::RemoveCompletions));
    assert!(!stops_the_run(&UninstallStep::DisableUnit));
}
