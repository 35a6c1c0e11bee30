//! What the notes and the lists that an update prints hold.

use vstd::prelude::*;

use crate::text::{lines, opt_text, starts_with, trim};
use crate::update::changelog::{
    all_notes, changelog, is_pending, list_line, newest_first, newest_release_comes_first, notes_of,
    pending, placed, release_list, release_notes, Release,
};
use crate::update::ranking::{rank_at, yes_count};

verus! {

/// The notes of a release stand under its tag, every line of them, in order and indented; blank
/// notes, or none, leave the tag alone.
pub proof fn notes_stand_under_their_tag(tag: Seq<char>, body: Seq<char>, i: int)
    ensures
        ({
            let r = release_notes(tag, Some(body));
            let ls = lines(trim(body));
            &&& r.len() == 2 + ls.len()
            &&& r[0].len() == 0
            &&& r[1] == "  "@ + tag
            &&& 0 <= i < ls.len() ==> r[2 + i] == "    "@ + ls[i]
        }),
        release_notes(tag, None).len() == 2,
        release_notes(tag, None)[0].len() == 0,
        release_notes(tag, None)[1] == "  "@ + tag,
        trim(body).len() == 0 ==> release_notes(tag, Some(body)) == release_notes(tag, None),
{
    assert(lines(seq![]).len() == 0);
    assert(release_notes(tag, None) =~= seq![seq![], "  "@ + tag]);
    if trim(body).len() == 0 {
        assert(trim(body) =~= seq![]);
    }
}

/// The notes of several releases are those of each, one after another.
pub proof fn notes_follow_one_another(a: Seq<Release>, r: Release, b: Seq<Release>)
    ensures
        all_notes(a + seq![r] + b) == all_notes(a) + release_notes(
            r.tag_name@,
            opt_text(r.body),
        ) + all_notes(b),
        all_notes(seq![]).len() == 0,
    decreases b.len(),
{
    if b.len() == 0 {
        assert(a + seq![r] + b =~= a.push(r));
        assert(a.push(r).drop_last() =~= a);
        assert(all_notes(b) =~= seq![]);
        assert(all_notes(a) + release_notes(r.tag_name@, opt_text(r.body)) + all_notes(b)
            =~= all_notes(a) + release_notes(r.tag_name@, opt_text(r.body)));
    } else {
        notes_follow_one_another(a, r, b.drop_last());
        assert((a + seq![r] + b).drop_last() =~= a + seq![r] + b.drop_last());
        assert((a + seq![r] + b).last() == b.last());
        assert(all_notes(a + seq![r] + b) =~= all_notes(a) + release_notes(
            r.tag_name@,
            opt_text(r.body),
        ) + all_notes(b));
    }
}

/// A release is passed by an update exactly where it is a stable one, newer than what runs, and
/// not newer than the target; so the target itself is passed, and what runs is not.
pub proof fn an_update_passes_what_lies_between(r: Release)
    ensures
        is_pending(r) <==> !r.prerelease && r.newer_than_current && !r.newer_than_target,
{
}

/// The releases that an update passes are those of the list that it passes, in the list's order:
/// none is lost, none is added and none is counted twice.
pub proof fn what_an_update_passes_is_picked_from_the_list(releases: Seq<Release>)
    ensures
        pending(releases) == releases.filter(
            |r: Release| !r.prerelease && r.newer_than_current && !r.newer_than_target,
        ),
    decreases releases.len(),
{
    reveal(Seq::filter);
    if releases.len() > 0 {
        what_an_update_passes_is_picked_from_the_list(releases.drop_last());
    }
}

proof fn lemma_filter_push(s: Seq<Release>, x: Release, p: spec_fn(Release) -> bool)
    ensures
        s.push(x).filter(p) == (if p(x) {
            s.filter(p).push(x)
        } else {
            s.filter(p)
        }),
{
    reveal(Seq::filter);
    assert(s.push(x).drop_last() =~= s);
}

proof fn lemma_placed_keeps(s: Seq<Release>, r: Release, rank: u64)
    requires
        forall|i: int, j: int|
            0 <= i < j < s.len() ==> (#[trigger] s[i]).rank >= (#[trigger] s[j]).rank,
    ensures
        placed(s, r).filter(|x: Release| x.rank == rank) == s.push(r).filter(
            |x: Release| x.rank == rank,
        ),
    decreases s.len(),
{
    let p = |x: Release| x.rank == rank;
    if s.len() > 0 && s.last().rank < r.rank {
        let init = s.drop_last();
        let q = placed(init, r);
        lemma_placed_keeps(init, r, rank);
        lemma_filter_push(q, s.last(), p);
        lemma_filter_push(init, r, p);
        lemma_filter_push(init, s.last(), p);
        lemma_filter_push(s, r, p);
        assert(init.push(s.last()) =~= s);
    }
}

/// Releases of one rank stay in the order in which they are listed.
pub proof fn releases_of_one_rank_stay_in_order(s: Seq<Release>, rank: u64)
    ensures
        newest_first(s).filter(|x: Release| x.rank == rank) == s.filter(
            |x: Release| x.rank == rank,
        ),
    decreases s.len(),
{
    reveal(Seq::filter);
    let p = |x: Release| x.rank == rank;
    if s.len() > 0 {
        let init = s.drop_last();
        releases_of_one_rank_stay_in_order(init, rank);
        newest_release_comes_first(init);
        lemma_placed_keeps(newest_first(init), s.last(), rank);
        lemma_filter_push(newest_first(init), s.last(), p);
        lemma_filter_push(init, s.last(), p);
        assert(init.push(s.last()) =~= s);
    }
}

/// On the stable channel what is shown depends on the list alone, and off it on the one release
/// alone. It begins with an empty line and a title that says what it is about, ends with an empty
/// line, and is nothing at all where there is nothing to show.
pub proof fn a_changelog_is_about_the_list_or_about_the_release(
    current: Seq<char>,
    latest: Seq<char>,
    release: Release,
    other: Release,
    releases: Seq<Release>,
    others: Seq<Release>,
    nightly: bool,
    pinned: bool,
)
    ensures
        !nightly && !pinned ==> {
            let shown = changelog(current, latest, release, releases, nightly, pinned);
            &&& shown == changelog(current, latest, other, releases, nightly, pinned)
            &&& shown.len() == 0 <==> forall|i: int|
                0 <= i < releases.len() ==> !is_pending(#[trigger] releases[i])
            &&& shown.len() > 0 ==> shown == seq![
                seq![],
                "Changes in v"@ + current + " → v"@ + latest + ":"@,
            ] + all_notes(newest_first(pending(releases))) + seq![seq![]]
        },
        nightly || pinned ==> {
            let shown = changelog(current, latest, release, releases, nightly, pinned);
            &&& shown == changelog(current, latest, release, others, nightly, pinned)
            &&& shown.len() == 0 <==> release.body is None || trim(release.body->0@).len() == 0
            &&& shown.len() > 0 ==> shown == seq![
                seq![],
                "Release notes for "@ + release.tag_name@ + ":"@,
            ] + release_notes(release.tag_name@, opt_text(release.body)) + seq![seq![]]
        },
{
    if !nightly && !pinned {
        lemma_some_pending(releases);
    }
}

proof fn lemma_some_pending(releases: Seq<Release>)
    ensures
        pending(releases).len() == 0 <==> forall|i: int|
            0 <= i < releases.len() ==> !is_pending(#[trigger] releases[i]),
    decreases releases.len(),
{
    if releases.len() > 0 {
        let init = releases.drop_last();
        lemma_some_pending(init);
        if pending(releases).len() == 0 {
            assert forall|i: int| 0 <= i < releases.len() implies !is_pending(
                #[trigger] releases[i],
            ) by {
                if i < init.len() {
                    assert(!is_pending(init[i]));
                }
            }
        } else if is_pending(releases.last()) {
            assert(is_pending(releases[releases.len() - 1]));
        } else {
            let i = choose|i: int| 0 <= i < init.len() && is_pending(#[trigger] init[i]);
            assert(is_pending(releases[i]));
        }
    }
}

/// A release is listed under its tag, and marked as a pre-release exactly where it is one and as
/// installed exactly where its version runs.
pub proof fn a_listed_release_is_marked_as_what_it_is(r: Release, current: Seq<char>)
    ensures
        starts_with(list_line(r, current), r.tag_name@),
        !r.prerelease && r.version@ != current ==> list_line(r, current) == r.tag_name@,
        r.prerelease && r.version@ != current ==> list_line(r, current) == r.tag_name@
            + "  [pre-release]"@,
        !r.prerelease && r.version@ == current ==> list_line(r, current) == r.tag_name@
            + "  (installed)"@,
        r.prerelease && r.version@ == current ==> list_line(r, current) == r.tag_name@
            + "  [pre-release]"@ + "  (installed)"@,
{
    let l = list_line(r, current);
    assert(l.take(r.tag_name@.len() as int) =~= r.tag_name@);
    assert(r.tag_name@ + seq![] =~= r.tag_name@);
    assert(r.tag_name@ + "  [pre-release]"@ + seq![] =~= r.tag_name@ + "  [pre-release]"@);
    assert(l =~= (r.tag_name@ + (if r.prerelease {
        "  [pre-release]"@
    } else {
        seq![]
    })) + (if r.version@ == current {
        "  (installed)"@
    } else {
        seq![]
    }));
}

/// Every release is listed once, on a line of its own; a list without any says so.
pub proof fn every_release_is_listed_once(releases: Seq<Release>, current: Seq<char>, i: int)
    ensures
        releases.len() > 0 ==> release_list(releases, current).len() == releases.len(),
        releases.len() > 0 && 0 <= i < releases.len() ==> release_list(releases, current)[i]
            == list_line(newest_first(releases)[i], current),
        release_list(seq![], current) == seq!["no releases published yet"@],
{
    newest_release_comes_first(releases);
}

/// A release without notes, and one with blank notes, have empty ones.
pub proof fn notes_are_trimmed(body: Option<Seq<char>>)
    ensures
        body is None ==> notes_of(body).len() == 0,
        body is Some ==> notes_of(body) == trim(body->0),
{
}

/// A rank counts the releases that one is newer than: one more yes is one more, and a no changes
/// nothing.
pub proof fn a_rank_counts_the_older_releases(
    answers: Seq<bool>,
    answer: bool,
    newer: Seq<Vec<bool>>,
    i: int,
)
    ensures
        yes_count(answers.push(answer)) == yes_count(answers) + (if answer {
            1nat
        } else {
            0
        }),
        yes_count(seq![]) == 0,
        0 <= i < newer.len() ==> rank_at(newer, i) == yes_count(newer[i]@),
        !(0 <= i < newer.len()) ==> rank_at(newer, i) == 0,
{
    assert(answers.push(answer).drop_last() =~= answers);
}

} // verus!
