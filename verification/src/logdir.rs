//! Filesystem location of the daemon's rolling log files.
//!
//! The daemon runs as root, so these files are root-owned.

use vstd::prelude::*;

use crate::platform::Platform;
use std::path::PathBuf;

verus! {

/// `std::path::PathBuf`, an owned path.
#[verifier::external_type_specification]
#[verifier::external_body]
pub struct ExPathBuf(PathBuf);

/// The text a path was made from or is made up of.
pub uninterp spec fn path_text(p: PathBuf) -> Seq<char>;

/// What joining a name to a path gives.
pub uninterp spec fn joined(base: PathBuf, name: Seq<char>) -> PathBuf;

/// `PathBuf::from` takes the text over as it is.
#[verifier::external_body]
fn path_from(s: &str) -> (r: PathBuf)
    ensures
        path_text(r) == s@,
{
    PathBuf::from(s)
}

/// `Path::join`: the path with a name joined to it, which the two determine.
#[verifier::external_body]
fn path_join(base: &PathBuf, name: &str) -> (r: PathBuf)
    ensures
        r == joined(*base, name@),
{
    base.join(name)
}

/// `dirs::config_dir`: the user's configuration directory. It depends on the environment, so
/// nothing is stated of it.
pub assume_specification[ dirs::config_dir ]() -> (r: Option<PathBuf>)
;

/// Where the daemon logs on a platform that has a place of its own for logs: the conventional
/// directory on Linux, and the one that Console.app shows on macOS.
pub open spec fn system_log_dir(platform: Platform) -> Option<Seq<char>> {
    match platform {
        Platform::Linux => Some("/var/log/rayfish"@),
        Platform::MacOs => Some("/Library/Logs/rayfish"@),
        _ => None,
    }
}

/// The daemon's log directory below a directory.
pub open spec fn logs_below(base: PathBuf) -> PathBuf {
    joined(joined(base, "rayfish"@), "logs"@)
}

/// Where the daemon logs below a configuration directory, or below the working directory
/// where there is none.
pub fn log_dir_under(config_dir: Option<PathBuf>) -> (r: PathBuf)
    ensures
        config_dir matches Some(base) ==> r == logs_below(base),
        config_dir is None ==> exists|base: PathBuf|
            path_text(base) == "."@ && r == #[trigger] logs_below(base),
{
    let base: PathBuf = match config_dir {
        Some(dir) => dir,
        None => path_from("."),
    };
    let ours: PathBuf = path_join(&base, "rayfish");
    let logs: PathBuf = path_join(&ours, "logs");
    assert(logs == logs_below(base));
    logs
}

/// Directory where the daemon writes its rolling daily log files (`rayfish.log.*`).
///
/// The conventional place on Linux and macOS; other platforms fall back to a directory below
/// the user's configuration directory, as [`log_dir_under`] says.
pub fn log_dir(platform: Platform) -> (r: PathBuf)
    ensures
        system_log_dir(platform) matches Some(text) ==> path_text(r) == text,
        system_log_dir(platform) is None ==> exists|base: PathBuf| r == #[trigger] logs_below(base),
        platform == Platform::Linux ==> path_text(r) == "/var/log/rayfish"@,
        platform == Platform::MacOs ==> path_text(r) == "/Library/Logs/rayfish"@,
        platform != Platform::Linux && platform != Platform::MacOs ==> exists|base: PathBuf|
            r == #[trigger] joined(joined(base, "rayfish"@), "logs"@),
{
    match platform {
        Platform::Linux => path_from("/var/log/rayfish"),
        Platform::MacOs => path_from("/Library/Logs/rayfish"),
        _ => log_dir_under(dirs::config_dir()),
    }
}

} // verus!
