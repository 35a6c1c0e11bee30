//! Taking the system service away.

use vstd::prelude::*;

use crate::platform::Platform;
use crate::text::texts;

verus! {

/// Where launchd finds the daemon.
pub const LAUNCHD_PLIST: &'static str = "/Library/LaunchDaemons/com.rayfish.vpn.plist";

/// What is known of the installed service.
pub struct ServiceState {
    /// Whether the service is installed: under an init system, in the service manager, or as
    /// a launchd daemon.
    pub installed: bool,
    /// On Linux, what the init system it is installed under is called.
    pub init_label: String,
    /// On Linux, whether that init system is systemd.
    pub systemd: bool,
}

/// A step of taking the service away.
pub enum UninstallStep {
    /// Remove the shell completions that were installed with it.
    RemoveCompletions,
    /// Stop and disable the unit, under whatever init system it was installed.
    DisableUnit,
    /// Remove the unit's file.
    RemoveUnit,
    /// Run a command. Its failure is reported, and no more.
    Run { program: String, args: Vec<String> },
    /// Remove the service from the Windows service manager.
    RemoveService,
    /// Remove a file.
    RemoveFile(String),
    /// Tell the user.
    Say(String),
    /// Fail, for this reason.
    Refuse(String),
}

/// A step as a mathematical value.
pub enum StepView {
    RemoveCompletions,
    DisableUnit,
    RemoveUnit,
    Run(Seq<char>, Seq<Seq<char>>),
    RemoveService,
    RemoveFile(Seq<char>),
    Say(Seq<char>),
    Refuse(Seq<char>),
}

/// What a step is.
pub open spec fn view_of(s: UninstallStep) -> StepView {
    match s {
        UninstallStep::RemoveCompletions => StepView::RemoveCompletions,
        UninstallStep::DisableUnit => StepView::DisableUnit,
        UninstallStep::RemoveUnit => StepView::RemoveUnit,
        UninstallStep::Run { program, args } => StepView::Run(program@, texts(args@)),
        UninstallStep::RemoveService => StepView::RemoveService,
        UninstallStep::RemoveFile(path) => StepView::RemoveFile(path@),
        UninstallStep::Say(text) => StepView::Say(text@),
        UninstallStep::Refuse(text) => StepView::Refuse(text@),
    }
}

/// What a list of steps is.
pub open spec fn views_of(v: Seq<UninstallStep>) -> Seq<StepView> {
    Seq::new(v.len(), |i: int| view_of(v[i]))
}

/// What is done on Linux for an installed service. A host that switched init systems still
/// cleans up, since it is the unit's own that counts; only systemd has to be told that a
/// unit is gone.
pub open spec fn linux_steps(label: Seq<char>, systemd: bool) -> Seq<StepView> {
    let said = StepView::Say("Removed "@ + label + " service."@);
    if systemd {
        seq![
            StepView::DisableUnit,
            StepView::RemoveUnit,
            StepView::Run("systemctl"@, seq!["daemon-reload"@]),
            said,
        ]
    } else {
        seq![StepView::DisableUnit, StepView::RemoveUnit, said]
    }
}

/// What is done on macOS for an installed service.
pub open spec fn macos_steps() -> Seq<StepView> {
    seq![
        StepView::Run("launchctl"@, seq!["unload"@, "-w"@, LAUNCHD_PLIST@]),
        StepView::RemoveFile(LAUNCHD_PLIST@),
        StepView::Say("Removed launchd daemon."@),
    ]
}

/// What is done on Windows for an installed service.
pub open spec fn windows_steps() -> Seq<StepView> {
    seq![StepView::RemoveService, StepView::Say("Removed Windows service."@)]
}

/// What is done to take the service away: the completions go first, whatever follows, since
/// they were installed with it and point at a binary that may be going away too.
pub open spec fn uninstall_steps(platform: Platform, s: ServiceState) -> Seq<StepView> {
    seq![StepView::RemoveCompletions] + match platform {
        Platform::Linux | Platform::MacOs | Platform::Windows => if !s.installed {
            seq![StepView::Say("Service not installed."@)]
        } else if platform == Platform::Linux {
            linux_steps(s.init_label@, s.systemd)
        } else if platform == Platform::MacOs {
            macos_steps()
        } else {
            windows_steps()
        },
        _ => seq![StepView::Refuse("service uninstallation not supported on this platform"@)],
    }
}

/// Whether the failure of a step ends the run: the rest is then not done.
pub open spec fn must_succeed(s: StepView) -> bool {
    s is RemoveUnit || s is RemoveService || s is RemoveFile || s is Refuse
}

/// Whether the failure of a step ends the run.
pub fn stops_the_run(step: &UninstallStep) -> (r: bool)
    ensures
        r == must_succeed(view_of(*step)),
{
    match step {
        UninstallStep::RemoveUnit => true,
        UninstallStep::RemoveService => true,
        UninstallStep::RemoveFile(_) => true,
        UninstallStep::Refuse(_) => true,
        _ => false,
    }
}

/// The steps that take the service away on a platform.
pub fn cmd_uninstall_service(platform: Platform, s: &ServiceState) -> (r: Vec<UninstallStep>)
    ensures
        views_of(r@) == uninstall_steps(platform, *s),
{
    let mut out: Vec<UninstallStep> = Vec::new();
    out.push(UninstallStep::RemoveCompletions);
    match platform {
        Platform::Linux | Platform::MacOs | Platform::Windows => if !s.installed {
            out.push(UninstallStep::Say("Service not installed.".to_owned()));
        } else if matches!(platform, Platform::Linux) {
            out.push(UninstallStep::DisableUnit);
            out.push(UninstallStep::RemoveUnit);
            if s.systemd {
                let mut args: Vec<String> = Vec::new();
                args.push("daemon-reload".to_owned());
                assert(texts(args@) =~= seq!["daemon-reload"@]);
                out.push(UninstallStep::Run { program: "systemctl".to_owned(), args });
            }
            let mut text = String::new();
            text.push_str("Removed ");
            text.push_str(s.init_label.as_str());
            text.push_str(" service.");
            assert(text@ =~= "Removed "@ + s.init_label@ + " service."@);
            out.push(UninstallStep::Say(text));
        } else if matches!(platform, Platform::MacOs) {
            let mut args: Vec<String> = Vec::new();
            args.push("unload".to_owned());
            args.push("-w".to_owned());
            args.push(LAUNCHD_PLIST.to_owned());
            assert(texts(args@) =~= seq!["unload"@, "-w"@, LAUNCHD_PLIST@]);
            out.push(UninstallStep::Run { program: "launchctl".to_owned(), args });
            out.push(UninstallStep::RemoveFile(LAUNCHD_PLIST.to_owned()));
            out.push(UninstallStep::Say("Removed launchd daemon.".to_owned()));
        } else {
            out.push(UninstallStep::RemoveService);
            out.push(UninstallStep::Say("Removed Windows service.".to_owned()));
        },
        _ => {
            out.push(
                UninstallStep::Refuse(
                    "service uninstallation not supported on this platform".to_owned(),
                ),
            );
        },
    }
    assert(views_of(out@) =~= uninstall_steps(platform, *s));
    out
}

/// The completions go on every platform, also where no service can be taken away.
pub proof fn completions_always_go_first(platform: Platform, s: ServiceState)
    ensures
        uninstall_steps(platform, s).len() >= 2,
        uninstall_steps(platform, s)[0] == StepView::RemoveCompletions,
{
}

/// The user is told that the service is gone only once what has to succeed has: in every
/// run the announcement is the last step.
pub proof fn removal_is_announced_last(platform: Platform, s: ServiceState, i: int)
    requires
        0 <= i < uninstall_steps(platform, s).len(),
        uninstall_steps(platform, s)[i] is Say,
    ensures
        i == uninstall_steps(platform, s).len() - 1,
{
}

} // verus!
