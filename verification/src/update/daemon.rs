//! The running daemon: its version, waiting for it, and what its log says when it does not
//! come up.

use vstd::prelude::*;

use crate::command::CommandOutcome;
use crate::platform::Platform;
use crate::text::{lines, lines_of, opt_text, text_eq, texts};
use crate::update::changelog::indented;

verus! {

/// How long a freshly started daemon has to accept a connection, in milliseconds. It exceeds
/// what a service manager takes to stop the old one and start the new one.
pub const DAEMON_REACHABLE_TIMEOUT_MS: u64 = 30_000;

/// The pause between two attempts to connect, in milliseconds.
pub const DAEMON_POLL_MS: u64 = 250;

/// How many of the log's last lines are shown.
pub const LOG_TAIL_LINES: usize = 15;

/// Where the daemon logs on macOS.
pub const MACOS_LOG: &'static str = "/var/log/rayfish.log";

/// The version a daemon says it has, from its reply to a status request. One that predates
/// the field says nothing, and neither does one that is not reachable.
pub fn daemon_version(reply: Option<String>) -> (r: Option<String>)
    ensures
        opt_text(r) == (match reply {
            Some(v) if v@.len() > 0 => Some(v@),
            _ => None,
        }),
        r is Some <==> reply is Some && reply->0@.len() > 0,
        r is Some ==> r->0@ == reply->0@,
{
    match reply {
        Some(v) => {
            let empty: bool = text_eq(v.as_str(), "");
            proof {
                reveal_strlit("");
                if v@.len() == 0 {
                    assert(v@ =~= ""@);
                }
            }
            if empty {
                None
            } else {
                Some(v)
            }
        },
        None => None,
    }
}

/// What follows an attempt to connect to the daemon.
#[derive(Clone, Copy, Debug, PartialEq, Eq, Structural)]
pub enum WaitStep {
    /// The daemon answered.
    Connected,
    /// Pause for so many milliseconds, then try again.
    Pause(u64),
    /// The daemon did not answer in time.
    GiveUp,
}

/// What follows an attempt to connect that ends `elapsed` milliseconds after the first one
/// began. The attempt comes before the clock is looked at, so a daemon that answers is never
/// given up, however late it is.
pub fn wait_for_daemon(connected: bool, elapsed: u64, timeout: u64) -> (r: WaitStep)
    ensures
        r == (if connected {
            WaitStep::Connected
        } else if elapsed >= timeout {
            WaitStep::GiveUp
        } else {
            WaitStep::Pause(DAEMON_POLL_MS)
        }),
        r == WaitStep::Connected <==> connected,
        r == WaitStep::GiveUp <==> !connected && elapsed >= timeout,
        r matches WaitStep::Pause(ms) ==> ms == 250,
{
    if connected {
        WaitStep::Connected
    } else if elapsed >= timeout {
        WaitStep::GiveUp
    } else {
        WaitStep::Pause(DAEMON_POLL_MS)
    }
}

/// Whether the attempts that end at these times, none of them answered, all lead to a pause
/// of at least the length that was asked for.
pub open spec fn keeps_waiting(ends: Seq<nat>, timeout: nat) -> bool {
    &&& forall|i: int| 0 <= i < ends.len() ==> #[trigger] ends[i] < timeout
    &&& forall|i: int| 0 < i < ends.len() ==> #[trigger] ends[i] >= ends[i - 1] + DAEMON_POLL_MS
}

/// The wait ends: so many attempts, and no more, go unanswered before it gives up.
pub proof fn waiting_is_bounded(ends: Seq<nat>, timeout: nat)
    requires
        keeps_waiting(ends, timeout),
        ends.len() > 0,
    ensures
        (ends.len() - 1) * DAEMON_POLL_MS < timeout,
{
    lemma_elapsed(ends, timeout, ends.len() - 1);
}

proof fn lemma_elapsed(ends: Seq<nat>, timeout: nat, i: int)
    requires
        keeps_waiting(ends, timeout),
        0 <= i < ends.len(),
    ensures
        ends[i] >= i * DAEMON_POLL_MS,
    decreases i,
{
    if i > 0 {
        lemma_elapsed(ends, timeout, i - 1);
        assert(ends[i] >= ends[i - 1] + DAEMON_POLL_MS);
    }
}

/// The last `n` of some lines, in their order.
pub open spec fn last_lines(ls: Seq<Seq<char>>, n: nat) -> Seq<Seq<char>> {
    if ls.len() <= n {
        ls
    } else {
        ls.skip(ls.len() - n)
    }
}

/// What is shown of a log.
pub open spec fn log_tail(path: Seq<char>, contents: Seq<char>) -> Seq<Seq<char>> {
    if lines(contents).len() == 0 {
        seq![seq![], "(daemon log "@ + path + " is empty)"@]
    } else {
        seq![seq![], "Last lines of "@ + path + ":"@] + indented(
            last_lines(lines(contents), LOG_TAIL_LINES as nat),
            "  "@,
        )
    }
}

/// What is shown of a log that could not be read.
pub open spec fn log_unreadable(path: Seq<char>, error: Seq<char>) -> Seq<Seq<char>> {
    seq![seq![], "(could not read daemon log "@ + path + ": "@ + error + ")"@]
}

/// What is shown of the daemon's log file, from its contents or from why it could not be
/// read.
pub fn print_daemon_log_tail(path: &str, contents: &Result<String, String>) -> (r: Vec<String>)
    ensures
        texts(r@) == (match *contents {
            Ok(c) => log_tail(path@, c@),
            Err(e) => log_unreadable(path@, e@),
        }),
{
    let mut out: Vec<String> = Vec::new();
    let blank = String::new();
    assert(blank@ =~= seq![]);
    out.push(blank);
    let mut title = String::new();
    match contents {
        Err(error) => {
            title.push_str("(could not read daemon log ");
            title.push_str(path);
            title.push_str(": ");
            title.push_str(error.as_str());
            title.push_str(")");
            assert(title@ =~= "(could not read daemon log "@ + path@ + ": "@ + error@ + ")"@);
            out.push(title);
            assert(texts(out@) =~= log_unreadable(path@, error@));
            out
        },
        Ok(text) => {
            let ls = lines_of(text.as_str());
            assert(texts(ls@).len() == ls@.len());
            if ls.len() == 0 {
                title.push_str("(daemon log ");
                title.push_str(path);
                title.push_str(" is empty)");
                assert(title@ =~= "(daemon log "@ + path@ + " is empty)"@);
                out.push(title);
                assert(texts(out@) =~= log_tail(path@, text@));
                return out;
            }
            title.push_str("Last lines of ");
            title.push_str(path);
            title.push_str(":");
            assert(title@ =~= "Last lines of "@ + path@ + ":"@);
            out.push(title);
            let from: usize = if ls.len() > LOG_TAIL_LINES {
                ls.len() - LOG_TAIL_LINES
            } else {
                0
            };
            let ghost kept = last_lines(lines(text@), LOG_TAIL_LINES as nat);
            let ghost tail = indented(kept, "  "@);
            let ghost head = texts(out@);
            assert(head =~= seq![seq![], "Last lines of "@ + path@ + ":"@]);
            assert(kept =~= texts(ls@).skip(from as int));
            assert(head + tail.take(0) =~= head);
            let mut i: usize = from;
            while i < ls.len()
                invariant
                    from <= i <= ls@.len(),
                    kept == texts(ls@).skip(from as int),
                    tail == indented(kept, "  "@),
                    texts(out@) == head + tail.take(i - from),
                decreases ls@.len() - i,
            {
                let ghost before = texts(out@);
                let mut line = String::new();
                line.push_str("  ");
                line.push_str(ls[i].as_str());
                assert(kept[i - from] == texts(ls@)[i as int]);
                assert(line@ =~= tail[i - from]);
                out.push(line);
                assert(texts(out@) =~= before.push(line@));
                assert(head + tail.take(i - from + 1) =~= (head + tail.take(i - from)).push(
                    tail[i - from],
                ));
                i = i + 1;
            }
            assert(tail.take(i - from) =~= tail);
            out
        },
    }
}

/// Where the daemon's log is found.
pub enum LogSource {
    /// In this file.
    File(String),
    /// Printed by `program` with these arguments, under a title.
    Command { title: String, program: String, args: Vec<String> },
    /// Nowhere that is known.
    Nowhere,
}

/// Where the daemon's log is found on a platform.
pub fn daemon_log(platform: Platform) -> (r: LogSource)
    ensures
        match platform {
            Platform::MacOs => r matches LogSource::File(path) && path@ == MACOS_LOG@,
            Platform::Linux => r matches LogSource::Command { title, program, args } && title@
                == "Recent daemon log (journalctl -u rayfish):"@ && program@ == "journalctl"@
                && texts(args@) == seq!["-u"@, "rayfish"@, "-n"@, "15"@, "--no-pager"@],
            _ => r is Nowhere,
        },
        r is File <==> platform == Platform::MacOs,
        r is Command <==> platform == Platform::Linux,
{
    match platform {
        Platform::MacOs => LogSource::File(MACOS_LOG.to_owned()),
        Platform::Linux => {
            let mut args: Vec<String> = Vec::new();
            args.push("-u".to_owned());
            args.push("rayfish".to_owned());
            args.push("-n".to_owned());
            args.push("15".to_owned());
            args.push("--no-pager".to_owned());
            assert(texts(args@) =~= seq!["-u"@, "rayfish"@, "-n"@, "15"@, "--no-pager"@]);
            LogSource::Command {
                title: "Recent daemon log (journalctl -u rayfish):".to_owned(),
                program: "journalctl".to_owned(),
                args,
            }
        },
        _ => LogSource::Nowhere,
    }
}

/// The warning a command's outcome is worth, if any: a failure is reported, and no more.
pub fn run_cmd(program: &str, outcome: &CommandOutcome) -> (r: Option<String>)
    ensures
        opt_text(r) == (match *outcome {
            CommandOutcome::Success => None,
            CommandOutcome::Exited(status) => Some(
                "warning: `"@ + program@ + "` exited with "@ + status@,
            ),
            CommandOutcome::NotRun(error) => Some(
                "warning: failed to run `"@ + program@ + "`: "@ + error@,
            ),
        }),
        r is None <==> *outcome is Success,
{
    let mut out = String::new();
    match outcome {
        CommandOutcome::Success => {
            return None;
        },
        CommandOutcome::Exited(status) => {
            out.push_str("warning: `");
            out.push_str(program);
            out.push_str("` exited with ");
            out.push_str(status.as_str());
            assert(out@ =~= "warning: `"@ + program@ + "` exited with "@ + status@);
        },
        CommandOutcome::NotRun(error) => {
            out.push_str("warning: failed to run `");
            out.push_str(program);
            out.push_str("`: ");
            out.push_str(error.as_str());
            assert(out@ =~= "warning: failed to run `"@ + program@ + "`: "@ + error@);
        },
    }
    Some(out)
}

} // verus!
