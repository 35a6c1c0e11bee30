//! What an update asks for, and when it takes what it finds for current.

use vstd::prelude::*;

use crate::digits::decimal;
use crate::platform::Platform;
use crate::text::{ends_with, starts_with};
use crate::update::changelog::walks_releases;
use crate::update::pages::{page_after, page_url};
use crate::update::{
    flags_of, is_current, label_of, list_url, pinned_tag, query_failure, release_url, report_head,
    report_tail, Standing,
};

verus! {

/// A version is tagged with one `v` in front: one that begins with it is its own tag, any other
/// gets it. Two versions have one tag only if they are the same but for that `v`.
pub proof fn a_tag_is_the_version_behind_one_v(a: Seq<char>, b: Seq<char>)
    ensures
        pinned_tag(a).len() > 0 && pinned_tag(a)[0] == 'v',
        a.len() > 0 && a[0] == 'v' ==> pinned_tag(a) == a,
        a.len() == 0 || a[0] != 'v' ==> pinned_tag(a) == seq!['v'] + a,
        pinned_tag(a) == pinned_tag(b) <==> a == b || a == seq!['v'] + b && !starts_with(
            b,
            seq!['v'],
        ) || b == seq!['v'] + a && !starts_with(a, seq!['v']),
{
    lemma_begins_with_v(a);
    lemma_begins_with_v(b);
    let va = seq!['v'] + a;
    let vb = seq!['v'] + b;
    lemma_begins_with_v(va);
    lemma_begins_with_v(vb);
    assert(va.skip(1) =~= a);
    assert(vb.skip(1) =~= b);
}

proof fn lemma_begins_with_v(s: Seq<char>)
    ensures
        starts_with(s, seq!['v']) <==> s.len() > 0 && s[0] == 'v',
{
    if s.len() > 0 {
        assert(s.take(1) =~= seq![s[0]]);
        if s.take(1) == seq!['v'] {
            assert(s.take(1)[0] == 'v');
        }
    }
}

/// A pinned request asks for the release of its own tag, on either channel: its address ends in
/// that tag and differs from those of every other tag, of the nightly and of the latest release.
pub proof fn a_pinned_request_asks_for_its_own_tag(
    slug: Seq<char>,
    version: Seq<char>,
    other: Seq<char>,
    nightly: bool,
    other_nightly: bool,
)
    ensures
        ({
            let tag = pinned_tag(version);
            let url = release_url(slug, Some(tag), nightly);
            &&& url == "https://api.github.com/repos/"@ + slug + "/releases/tags/"@ + tag
            &&& ends_with(url, "/releases/tags/"@ + tag)
            &&& url == release_url(slug, Some(tag), !nightly)
            &&& url == release_url(slug, Some(pinned_tag(other)), other_nightly) <==> tag
                == pinned_tag(other)
            &&& url != release_url(slug, None, other_nightly)
        }),
{
    reveal_strlit("/releases/tags/");
    reveal_strlit("/releases/tags/nightly");
    reveal_strlit("/releases/latest");
    let base = "https://api.github.com/repos/"@ + slug;
    let n = base.len() as int;
    let tag = pinned_tag(version);
    let url = release_url(slug, Some(tag), nightly);
    a_tag_is_the_version_behind_one_v(version, other);
    a_tag_is_the_version_behind_one_v(other, version);
    assert(url =~= base + "/releases/tags/"@ + tag);
    assert(url.skip(n) =~= "/releases/tags/"@ + tag);
    assert(url.skip(n + 15) =~= tag);
    let theirs = release_url(slug, Some(pinned_tag(other)), other_nightly);
    assert(theirs.skip(n + 15) =~= pinned_tag(other));
    let rolling = release_url(slug, None, true);
    let latest = release_url(slug, None, false);
    assert(rolling[n + 15] == 'n');
    assert(url[n + 15] == tag[0]);
    assert(latest[n + 10] == 'l');
    assert(url[n + 10] == 't');
}

/// Without a pin the channel decides: the rolling `nightly` tag, or whatever is latest.
pub proof fn the_channel_decides_where_nothing_is_pinned(slug: Seq<char>)
    ensures
        release_url(slug, None, true) == "https://api.github.com/repos/"@ + slug
            + "/releases/tags/nightly"@,
        release_url(slug, None, false) == "https://api.github.com/repos/"@ + slug
            + "/releases/latest"@,
        release_url(slug, None, true) != release_url(slug, None, false),
{
    reveal_strlit("/releases/tags/nightly");
    reveal_strlit("/releases/latest");
    let n = ("https://api.github.com/repos/"@ + slug).len() as int;
    assert(release_url(slug, None, true).len() == n + 22);
    assert(release_url(slug, None, false).len() == n + 16);
}

/// A failed query for a pinned release names the tag it looked for, on either channel; the other
/// two say which of them failed.
pub proof fn a_failed_query_says_what_it_looked_for(tag: Seq<char>, nightly: bool)
    ensures
        query_failure(Some(tag), nightly) == "failed to find release "@ + tag
            + " (see `ray update --list`)"@,
        query_failure(None, true)
            == "failed to query the nightly pre-release (is one published yet?)"@,
        query_failure(None, false)
            == "failed to query the GitHub releases API (is a release published yet?)"@,
{
}

/// Lists are asked for by how many releases they are to hold, of the one repository.
pub proof fn lists_are_asked_for_by_their_length(slug: Seq<char>, count: Seq<char>)
    ensures
        starts_with(list_url(slug, count), "https://api.github.com/repos/"@ + slug + "/releases?"@),
        ends_with(list_url(slug, count), "per_page="@ + count),
        list_url(slug, count) == "https://api.github.com/repos/"@ + slug + "/releases?per_page="@
            + count,
{
    reveal_strlit("/releases?per_page=");
    reveal_strlit("/releases?");
    reveal_strlit("per_page=");
    let url = list_url(slug, count);
    let head = "https://api.github.com/repos/"@ + slug + "/releases?"@;
    assert("/releases?per_page="@ =~= "/releases?"@ + "per_page="@);
    assert(url.take(head.len() as int) =~= head);
    assert(url.skip(head.len() as int) =~= "per_page="@ + count);
}

/// A page is full with a hundred releases, and only a full one is followed by the next; the list
/// is walked on the stable channel alone, and only where nothing is pinned.
pub proof fn only_a_full_page_is_followed_by_the_next(
    slug: Seq<char>,
    page: nat,
    received: nat,
    nightly: bool,
    pinned: bool,
)
    ensures
        page_after(page, received) == Some(page + 1) <==> received >= 100,
        page_after(page, received) is None <==> received < 100,
        page_url(slug, 1) == "https://api.github.com/repos/"@ + slug + "/releases?per_page=100"@,
        page > 1 ==> page_url(slug, page) == page_url(slug, 1) + "&page="@ + decimal(page),
        walks_releases(nightly, pinned) <==> !(nightly || pinned),
{
    reveal_strlit("/releases?per_page=");
    reveal_strlit("100");
    reveal_strlit("/releases?per_page=100");
    assert(page_url(slug, 1) =~= "https://api.github.com/repos/"@ + slug
        + "/releases?per_page=100"@);
}

/// On Windows the installer's record decides alone: what is on record is the release, or it is
/// not, whatever was asked for and whatever else is known.
pub proof fn windows_goes_by_the_installers_record(pinned: bool, nightly: bool, s: Standing)
    ensures
        is_current(Platform::Windows, pinned, nightly, s) <==> s.installed is Some
            && s.installed->0@ == s.identity@,
{
}

/// Elsewhere a pinned release is current exactly where it is the version that runs, a nightly
/// exactly where the running binary has the published checksum, and the latest release exactly
/// where it is not newer; nothing else is looked at.
pub proof fn elsewhere_the_request_decides_what_is_compared(
    platform: Platform,
    nightly: bool,
    s: Standing,
)
    requires
        platform != Platform::Windows,
    ensures
        is_current(platform, true, nightly, s) <==> s.latest@ == s.current@,
        is_current(platform, false, true, s) <==> s.own is Some && s.own->0@ == s.published@,
        is_current(platform, false, false, s) <==> !s.newer,
{
}

/// A nightly goes by the name it was published under, which carries its commit; any other
/// release by its version.
pub proof fn a_release_is_called_by_its_name_or_its_version(
    name: Option<Seq<char>>,
    version: Seq<char>,
    n: Seq<char>,
)
    ensures
        label_of(false, name, version) == "v"@ + version,
        label_of(true, Some(n), version) == n,
        label_of(true, None, version) == "nightly"@,
{
}

/// The command that a check recommends repeats the request: the channel, or else the version
/// that was asked for. Where nothing is to be done it recommends none.
pub proof fn a_check_recommends_the_same_request(
    v: Seq<char>,
    version: Option<Seq<char>>,
    nightly: bool,
)
    ensures
        report_tail(true, nightly, version) == "rayfish is up to date"@,
        report_tail(false, true, version) == "run `sudo ray update"@ + " --nightly"@
            + "` to upgrade"@,
        report_tail(false, false, Some(v)) == "run `sudo ray update"@ + (" --version "@ + v)
            + "` to upgrade"@,
        report_tail(false, false, None) == "run `sudo ray update"@ + "` to upgrade"@,
        flags_of(false, None).len() == 0,
{
    assert("run `sudo ray update"@ + seq![] =~= "run `sudo ray update"@);
}

/// A check says what runs and what there is, and mentions the daemon exactly where one answers
/// with another version than this program's.
pub proof fn a_check_mentions_a_stale_daemon_only(
    full: Seq<char>,
    label: Seq<char>,
    daemon: Option<Seq<char>>,
    current: Seq<char>,
)
    ensures
        ({
            let r = report_head(full, label, daemon, current);
            let stale = daemon is Some && daemon->0 != current;
            &&& r.len() == (if stale {
                3int
            } else {
                2
            })
            &&& r[0] == "current: "@ + full
            &&& r[1] == "latest:  "@ + label
            &&& stale ==> starts_with(r[2], "daemon:  "@ + daemon->0)
        }),
{
    if daemon is Some && daemon->0 != current {
        let r = report_head(full, label, daemon, current);
        let head = "daemon:  "@ + daemon->0;
        assert(r[2].take(head.len() as int) =~= head);
    }
}

} // verus!
