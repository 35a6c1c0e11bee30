//! The operating systems the daemon runs on.

use vstd::prelude::*;

verus! {

/// An operating system.
#[derive(Clone, Copy, Debug, PartialEq, Eq, Structural)]
pub enum Platform {
    Linux,
    MacOs,
    Windows,
    FreeBsd,
    OpenBsd,
    Android,
    Other,
}

} // verus!
