//! Self-update: which release is asked for, whether it is taken, and what the user is told.
//!
//! What is printed is a list of lines here; an empty line is an empty text.

pub mod changelog;
pub mod daemon;
pub mod flow;
pub mod install;
pub mod notes_laws;
pub mod pages;
pub mod query_laws;
pub mod ranking;
pub mod run_laws;
pub mod service;

use vstd::prelude::*;

use crate::platform::Platform;
use crate::text::{
    ends_with, opt_text, starts_with, text_eq, text_starts_with, text_strip_prefix, texts,
};
use crate::update::changelog::Release;

verus! {

/// What the user asked of an update.
pub struct UpdateRequest {
    /// Install even when the release is the one that runs.
    pub force: bool,
    /// Only report; nothing is installed.
    pub check: bool,
    /// Track the rolling `nightly` pre-release.
    pub nightly: bool,
    /// Only print the releases there are.
    pub list: bool,
    /// Take this release, older ones included.
    pub version: Option<String>,
}

impl UpdateRequest {
    /// Whether one release is asked for by its version.
    pub open spec fn pinned(&self) -> bool {
        self.version is Some
    }

    /// The tag of the release that is asked for by its version.
    pub open spec fn tag(&self) -> Option<Seq<char>> {
        match self.version {
            Some(v) => Some(pinned_tag(v@)),
            None => None,
        }
    }
}

/// The tag of a version, which may be written with or without the leading `v`.
pub open spec fn pinned_tag(version: Seq<char>) -> Seq<char> {
    if starts_with(version, seq!['v']) {
        version
    } else {
        seq!['v'] + version
    }
}

/// The tag of a version: releases are tagged `vX.Y.Z`.
pub fn tag_of_version(version: &str) -> (r: String)
    ensures
        r@ == pinned_tag(version@),
{
    let mut out = String::new();
    out.push('v');
    proof {
        reveal_strlit("v");
        assert("v"@ =~= seq!['v']);
    }
    match text_strip_prefix(version, "v") {
        Some(bare) => {
            out.push_str(bare.as_str());
            proof {
                assert(version@ =~= version@.take(1) + version@.skip(1));
                assert(out@ =~= version@);
            }
        },
        None => {
            out.push_str(version);
            assert(out@ =~= seq!['v'] + version@);
        },
    }
    out
}

/// A version means the same release with and without the leading `v`.
pub proof fn leading_v_makes_no_difference(version: Seq<char>)
    requires
        !starts_with(version, seq!['v']),
    ensures
        pinned_tag(seq!['v'] + version) == pinned_tag(version),
{
    assert((seq!['v'] + version).take(1) =~= seq!['v']);
}

/// Where the releases of a repository are listed, at most `count` of them.
pub open spec fn list_url(slug: Seq<char>, count: Seq<char>) -> Seq<char> {
    "https://api.github.com/repos/"@ + slug + "/releases?per_page="@ + count
}

/// Where a release is described: the pinned one, or the nightly, or the latest.
pub open spec fn release_url(slug: Seq<char>, tag: Option<Seq<char>>, nightly: bool) -> Seq<char> {
    let base = "https://api.github.com/repos/"@ + slug;
    match tag {
        Some(t) => base + "/releases/tags/"@ + t,
        None => if nightly {
            base + "/releases/tags/nightly"@
        } else {
            base + "/releases/latest"@
        },
    }
}

/// What a failed query is reported as.
pub open spec fn query_failure(tag: Option<Seq<char>>, nightly: bool) -> Seq<char> {
    match tag {
        Some(t) => "failed to find release "@ + t + " (see `ray update --list`)"@,
        None => if nightly {
            "failed to query the nightly pre-release (is one published yet?)"@
        } else {
            "failed to query the GitHub releases API (is a release published yet?)"@
        },
    }
}

/// The first query of an update.
pub enum FirstQuery {
    /// List the releases there are, and end with that.
    List { url: String, failure: String },
    /// Describe the one release that is asked for.
    Release { url: String, failure: String },
}

/// What an update asks of the release server first.
pub fn first_query(request: &UpdateRequest, slug: &str) -> (r: FirstQuery)
    ensures
        match r {
            FirstQuery::List { url, failure } => {
                &&& request.list
                &&& url@ == list_url(slug@, "30"@)
                &&& failure@ == "failed to list releases"@
            },
            FirstQuery::Release { url, failure } => {
                &&& !request.list
                &&& url@ == release_url(slug@, request.tag(), request.nightly)
                &&& failure@ == query_failure(request.tag(), request.nightly)
                &&& request.version matches Some(v) ==> ends_with(
                    url@,
                    "/releases/tags/"@ + pinned_tag(v@),
                )
            },
        },
{
    let mut url = String::new();
    url.push_str("https://api.github.com/repos/");
    url.push_str(slug);
    if request.list {
        url.push_str("/releases?per_page=");
        url.push_str("30");
        return FirstQuery::List { url, failure: "failed to list releases".to_owned() };
    }
    match &request.version {
        Some(version) => {
            let tag = tag_of_version(version.as_str());
            url.push_str("/releases/tags/");
            url.push_str(tag.as_str());
            let mut failure = String::new();
            failure.push_str("failed to find release ");
            failure.push_str(tag.as_str());
            failure.push_str(" (see `ray update --list`)");
            proof {
                let tail = "/releases/tags/"@ + tag@;
                assert(url@.skip(url@.len() - tail.len()) =~= tail);
            }
            FirstQuery::Release { url, failure }
        },
        None => if request.nightly {
            url.push_str("/releases/tags/nightly");
            FirstQuery::Release {
                url,
                failure: "failed to query the nightly pre-release (is one published yet?)".to_owned(),
            }
        } else {
            url.push_str("/releases/latest");
            FirstQuery::Release {
                url,
                failure: "failed to query the GitHub releases API (is a release published yet?)".to_owned(),
            }
        },
    }
}

/// What a release is called in messages: a nightly carries its commit in its name.
pub open spec fn label_of(nightly: bool, name: Option<Seq<char>>, version: Seq<char>) -> Seq<char> {
    if nightly {
        match name {
            Some(n) => n,
            None => "nightly"@,
        }
    } else {
        "v"@ + version
    }
}

/// What a release is called in messages.
pub fn remote_label(nightly: bool, release: &Release) -> (r: String)
    ensures
        r@ == label_of(nightly, opt_text(release.name), release.version@),
{
    if nightly {
        match &release.name {
            Some(name) => name.as_str().to_owned(),
            None => "nightly".to_owned(),
        }
    } else {
        let mut out = String::new();
        out.push_str("v");
        out.push_str(release.version.as_str());
        assert(out@ =~= "v"@ + release.version@);
        out
    }
}

/// Where a release's asset is downloaded from.
pub fn asset_url(slug: &str, tag: &str, asset: &str) -> (r: String)
    ensures
        r@ == "https://github.com/"@ + slug@ + "/releases/download/"@ + tag@ + "/"@ + asset@,
{
    let mut out = String::new();
    out.push_str("https://github.com/");
    out.push_str(slug);
    out.push_str("/releases/download/");
    out.push_str(tag);
    out.push_str("/");
    out.push_str(asset);
    out
}

/// What is known of the release that is asked for, and of what runs here.
pub struct Standing {
    /// The version that runs.
    pub current: String,
    /// The release's version.
    pub latest: String,
    /// Whether the release's version is newer than the one that runs.
    pub newer: bool,
    /// The checksum published with the release.
    pub published: String,
    /// The running binary's own checksum, where the binary can be read.
    pub own: Option<String>,
    /// The version the Windows installer has on record.
    pub installed: Option<String>,
    /// The version of the release as the Windows installer will record it.
    pub identity: String,
}

/// Whether what runs here is the release that is asked for.
///
/// A pinned version is current only if it is the one that runs, so a downgrade is allowed.
/// Nightlies share a version number, so they go by the checksum, and a binary that cannot
/// be read is not assumed to be current. The stable channel goes by the order of versions.
/// On Windows the installer's record decides.
pub open spec fn is_current(platform: Platform, pinned: bool, nightly: bool, s: Standing) -> bool {
    if platform == Platform::Windows {
        opt_text(s.installed) == Some(s.identity@)
    } else if pinned {
        s.latest@ == s.current@
    } else if nightly {
        opt_text(s.own) == Some(s.published@)
    } else {
        !s.newer
    }
}

/// Whether what runs here is the release that is asked for.
pub fn up_to_date(platform: Platform, request: &UpdateRequest, s: &Standing) -> (r: bool)
    ensures
        r == is_current(platform, request.pinned(), request.nightly, *s),
        platform == Platform::Windows ==> (r <==> opt_text(s.installed) == Some(s.identity@)),
        platform != Platform::Windows && request.version is Some ==> (r <==> s.latest@ == s.current@),
        platform != Platform::Windows && request.version is None && request.nightly ==> (r
            <==> opt_text(s.own) == Some(s.published@)),
        platform != Platform::Windows && request.version is None && !request.nightly ==> (r
            <==> !s.newer),
{
    if matches!(platform, Platform::Windows) {
        match &s.installed {
            Some(v) => text_eq(v.as_str(), s.identity.as_str()),
            None => false,
        }
    } else if request.version.is_some() {
        text_eq(s.latest.as_str(), s.current.as_str())
    } else if request.nightly {
        match &s.own {
            Some(digest) => text_eq(digest.as_str(), s.published.as_str()),
            None => false,
        }
    } else {
        !s.newer
    }
}

/// A pinned release of another version is never taken for current, be it newer or older, so
/// pinning can downgrade.
pub proof fn pinning_can_downgrade(platform: Platform, nightly: bool, s: Standing)
    requires
        platform != Platform::Windows,
        s.latest@ != s.current@,
    ensures
        !is_current(platform, true, nightly, s),
{
}

/// The stable channel only goes forward: a release that is not newer is taken for current, so
/// it is installed only by force.
pub proof fn stable_goes_forward(platform: Platform, s: Standing)
    requires
        platform != Platform::Windows,
    ensures
        is_current(platform, false, false, s) <==> !s.newer,
{
}

/// Two nightlies of one version are told apart by their checksums, whatever the versions
/// are.
pub proof fn nightlies_go_by_checksum(platform: Platform, a: Standing, b: Standing)
    requires
        platform != Platform::Windows,
        opt_text(a.own) == opt_text(b.own),
        a.published@ == b.published@,
    ensures
        is_current(platform, false, true, a) == is_current(platform, false, true, b),
{
}

/// A nightly whose running binary cannot be read is taken, rather than assumed current.
pub proof fn unreadable_binary_is_not_current(platform: Platform, s: Standing)
    requires
        platform != Platform::Windows,
        s.own is None,
    ensures
        !is_current(platform, false, true, s),
{
}

/// What an update does once it is known whether the release is the one that runs.
#[derive(Clone, Copy, Debug, PartialEq, Eq, Structural)]
pub enum UpdateDecision {
    /// Report, and leave everything as it is.
    Report,
    /// Say that nothing is to be done.
    AlreadyCurrent,
    /// Show what the release brings, then install it.
    Install,
}

/// What an update does. A check never installs, and a release that runs already is installed
/// again only by force.
pub fn update_decision(request: &UpdateRequest, current: bool) -> (r: UpdateDecision)
    ensures
        r == (if request.check {
            UpdateDecision::Report
        } else if current && !request.force {
            UpdateDecision::AlreadyCurrent
        } else {
            UpdateDecision::Install
        }),
        r == UpdateDecision::Report <==> request.check,
        r == UpdateDecision::Install <==> !request.check && (request.force || !current),
        r == UpdateDecision::AlreadyCurrent <==> !request.check && current && !request.force,
{
    if request.check {
        UpdateDecision::Report
    } else if current && !request.force {
        UpdateDecision::AlreadyCurrent
    } else {
        UpdateDecision::Install
    }
}

/// What a release is installed as: on Windows as the installer will record it, elsewhere by
/// its version.
pub fn install_identity(platform: Platform, s: &Standing) -> (r: String)
    ensures
        r@ == (if platform == Platform::Windows {
            s.identity@
        } else {
            s.latest@
        }),
        platform == Platform::Windows ==> r@ == s.identity@,
        platform != Platform::Windows ==> r@ == s.latest@,
{
    if matches!(platform, Platform::Windows) {
        s.identity.as_str().to_owned()
    } else {
        s.latest.as_str().to_owned()
    }
}

/// What the user is told when nothing is to be done.
pub fn already_current(label: &str) -> (r: String)
    ensures
        r@ == "rayfish is already up to date ("@ + label@ + ")"@,
{
    let mut out = String::new();
    out.push_str("rayfish is already up to date (");
    out.push_str(label);
    out.push_str(")");
    out
}

/// The flags that repeat a request when it is run for good.
pub open spec fn flags_of(nightly: bool, version: Option<Seq<char>>) -> Seq<char> {
    if nightly {
        " --nightly"@
    } else {
        match version {
            Some(v) => " --version "@ + v,
            None => seq![],
        }
    }
}

/// The lines of a check that come before the changes: what runs, what there is, and a daemon
/// that runs another version than this binary.
pub open spec fn report_head(
    full_version: Seq<char>,
    label: Seq<char>,
    daemon: Option<Seq<char>>,
    current: Seq<char>,
) -> Seq<Seq<char>> {
    let head = seq!["current: "@ + full_version, "latest:  "@ + label];
    match daemon {
        Some(d) if d != current => head.push(
            "daemon:  "@ + d + " (stale — run `sudo ray update` to restart it)"@,
        ),
        _ => head,
    }
}

/// The last line of a check.
pub open spec fn report_tail(current: bool, nightly: bool, version: Option<Seq<char>>) -> Seq<char> {
    if current {
        "rayfish is up to date"@
    } else {
        "run `sudo ray update"@ + flags_of(nightly, version) + "` to upgrade"@
    }
}

/// The lines of a check that come before the changes. A daemon that is not reachable is not
/// mentioned.
pub fn check_head(
    full_version: &str,
    label: &str,
    daemon: Option<String>,
    current: &str,
) -> (r: Vec<String>)
    ensures
        texts(r@) == report_head(full_version@, label@, opt_text(daemon), current@),
{
    let mut out: Vec<String> = Vec::new();
    let mut line = String::new();
    line.push_str("current: ");
    line.push_str(full_version);
    assert(line@ =~= "current: "@ + full_version@);
    out.push(line);
    let mut line = String::new();
    line.push_str("latest:  ");
    line.push_str(label);
    assert(line@ =~= "latest:  "@ + label@);
    out.push(line);
    match daemon {
        Some(version) => if !text_eq(version.as_str(), current) {
            let mut line = String::new();
            line.push_str("daemon:  ");
            line.push_str(version.as_str());
            line.push_str(" (stale — run `sudo ray update` to restart it)");
            assert(line@ =~= "daemon:  "@ + version@
                + " (stale — run `sudo ray update` to restart it)"@);
            out.push(line);
        },
        None => {},
    }
    assert(texts(out@) =~= report_head(full_version@, label@, opt_text(daemon), current@));
    out
}

/// The last line of a check: that nothing is to be done, or the command that upgrades.
pub fn check_tail(request: &UpdateRequest, current: bool) -> (r: String)
    ensures
        r@ == report_tail(current, request.nightly, opt_text(request.version)),
{
    if current {
        return "rayfish is up to date".to_owned();
    }
    let mut out = String::new();
    out.push_str("run `sudo ray update");
    if request.nightly {
        out.push_str(" --nightly");
    } else {
        match &request.version {
            Some(v) => {
                out.push_str(" --version ");
                out.push_str(v.as_str());
            },
            None => {},
        }
    }
    out.push_str("` to upgrade");
    assert(out@ =~= report_tail(current, request.nightly, opt_text(request.version)));
    out
}

/// The label of what ran before an update. A nightly is known by its commit.
pub fn update_label(current: &str, remote_label: &str, git_sha: &str) -> (r: String)
    ensures
        r@ == (if starts_with(remote_label@, "nightly"@) {
            "nightly ("@ + git_sha@ + ")"@
        } else {
            "v"@ + current@
        }),
{
    let mut out = String::new();
    if text_starts_with(remote_label, "nightly") {
        out.push_str("nightly (");
        out.push_str(git_sha);
        out.push_str(")");
    } else {
        out.push_str("v");
        out.push_str(current);
    }
    out
}

} // verus!
