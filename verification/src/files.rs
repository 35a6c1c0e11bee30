//! The configuration files the daemon takes over, and the steps that change them.

use vstd::prelude::*;

use crate::dns::DNS_DOMAIN;

verus! {

/// A file that the daemon writes, backs up or removes.
#[derive(Clone, Copy, Debug, PartialEq, Eq, Structural)]
pub enum ConfigFile {
    /// `/etc/resolv.conf`.
    ResolvConf,
    /// The host's own `resolv.conf`, kept while ours is in place.
    ResolvConfBackup,
    /// The drop-in that has NetworkManager leave `resolv.conf` alone.
    NmDropin,
    /// The per-domain resolver file that earlier releases wrote on macOS.
    LegacyResolver,
    /// What stood in place of that resolver file before.
    LegacyResolverBackup,
}

/// Where a file lives. NetworkManager's drop-in lives at `nm_dropin`.
pub open spec fn file_path(f: ConfigFile, nm_dropin: Seq<char>) -> Seq<char> {
    match f {
        ConfigFile::ResolvConf => "/etc/resolv.conf"@,
        ConfigFile::ResolvConfBackup => "/etc/resolv.conf.before-rayfish"@,
        ConfigFile::NmDropin => nm_dropin,
        ConfigFile::LegacyResolver => "/etc/resolver/"@ + DNS_DOMAIN@,
        ConfigFile::LegacyResolverBackup => "/etc/resolver/"@ + DNS_DOMAIN@
            + ".before-rayfish"@,
    }
}

impl ConfigFile {
    /// Where the file lives. NetworkManager's drop-in lives at `nm_dropin`.
    pub fn path(&self, nm_dropin: &str) -> (r: String)
        ensures
            r@ == file_path(*self, nm_dropin@),
    {
        let mut out = String::new();
        match self {
            ConfigFile::ResolvConf => {
                out.push_str("/etc/resolv.conf");
                assert(out@ =~= "/etc/resolv.conf"@);
            },
            ConfigFile::ResolvConfBackup => {
                out.push_str("/etc/resolv.conf.before-rayfish");
                assert(out@ =~= "/etc/resolv.conf.before-rayfish"@);
            },
            ConfigFile::NmDropin => {
                out.push_str(nm_dropin);
                assert(out@ =~= nm_dropin@);
            },
            ConfigFile::LegacyResolver => {
                out.push_str("/etc/resolver/");
                out.push_str(DNS_DOMAIN);
                assert(out@ =~= "/etc/resolver/"@ + DNS_DOMAIN@);
            },
            ConfigFile::LegacyResolverBackup => {
                out.push_str("/etc/resolver/");
                out.push_str(DNS_DOMAIN);
                out.push_str(".before-rayfish");
                assert(out@ =~= "/etc/resolver/"@ + DNS_DOMAIN@ + ".before-rayfish"@);
            },
        }
        out
    }
}

/// One change to the configuration files; `T` is the type of a file's contents.
#[derive(Debug, PartialEq, Eq)]
pub enum FileStep<T> {
    /// Replace the file's contents.
    Write(ConfigFile, T),
    /// Copy one file over another.
    Copy { from: ConfigFile, to: ConfigFile },
    /// Remove the file.
    Remove(ConfigFile),
}

/// A step with its contents as text.
pub open spec fn step_view(s: FileStep<String>) -> FileStep<Seq<char>> {
    match s {
        FileStep::Write(f, c) => FileStep::Write(f, c@),
        FileStep::Copy { from, to } => FileStep::Copy { from, to },
        FileStep::Remove(f) => FileStep::Remove(f),
    }
}

/// Steps with their contents as text.
pub open spec fn steps_view(s: Seq<FileStep<String>>) -> Seq<FileStep<Seq<char>>> {
    Seq::new(s.len(), |i: int| step_view(s[i]))
}

/// The files after one step, where it succeeds. Copying a file that is not there changes
/// nothing.
pub open spec fn after_step(
    files: Map<ConfigFile, Seq<char>>,
    s: FileStep<Seq<char>>,
) -> Map<ConfigFile, Seq<char>> {
    match s {
        FileStep::Write(f, c) => files.insert(f, c),
        FileStep::Copy { from, to } => if files.dom().contains(from) {
            files.insert(to, files[from])
        } else {
            files
        },
        FileStep::Remove(f) => files.remove(f),
    }
}

/// The files after the steps, one after another.
pub open spec fn after_steps(
    files: Map<ConfigFile, Seq<char>>,
    s: Seq<FileStep<Seq<char>>>,
) -> Map<ConfigFile, Seq<char>>
    decreases s.len(),
{
    if s.len() == 0 {
        files
    } else {
        after_step(after_steps(files, s.drop_last()), s.last())
    }
}

} // verus!
