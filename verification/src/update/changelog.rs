//! The releases there are, and the notes of those an update would bring.

use vstd::prelude::*;

use crate::text::{lines, lines_of, opt_text, text_eq, text_trim, texts, trim};

verus! {

/// How long the list of releases is waited for, in seconds. An update is not held up by its
/// notes.
pub const CHANGELOG_TIMEOUT_SECS: u64 = 5;

/// A published release.
pub struct Release {
    pub tag_name: String,
    pub name: Option<String>,
    pub body: Option<String>,
    pub prerelease: bool,
    /// The version its tag names.
    pub version: String,
    /// Whether that version is newer than the one that runs.
    pub newer_than_current: bool,
    /// Whether that version is newer than the one an update would install.
    pub newer_than_target: bool,
    /// How new the release is among those listed with it: a newer one has a higher rank.
    pub rank: u64,
}

/// The notes of a release without the white space round them; none are empty notes.
pub open spec fn notes_of(body: Option<Seq<char>>) -> Seq<char> {
    match body {
        Some(b) => trim(b),
        None => seq![],
    }
}

/// Lines with an indent before each.
pub open spec fn indented(ls: Seq<Seq<char>>, indent: Seq<char>) -> Seq<Seq<char>> {
    ls.map_values(|l: Seq<char>| indent + l)
}

/// One release's notes, indented under its tag. Blank or missing notes leave the tag alone.
pub open spec fn release_notes(tag: Seq<char>, body: Option<Seq<char>>) -> Seq<Seq<char>> {
    seq![seq![], "  "@ + tag] + indented(lines(notes_of(body)), "    "@)
}

fn trimmed_notes(body: &Option<String>) -> (r: String)
    ensures
        r@ == notes_of(opt_text(*body)),
{
    match body {
        Some(b) => text_trim(b.as_str()),
        None => {
            let empty = String::new();
            assert(empty@ =~= seq![]);
            empty
        },
    }
}

/// Appends one release's notes, indented under its tag.
fn push_release_notes(out: &mut Vec<String>, tag: &str, body: &Option<String>)
    ensures
        texts(final(out)@) == texts(old(out)@) + release_notes(tag@, opt_text(*body)),
{
    let ghost start = texts(out@);
    let blank = String::new();
    assert(blank@ =~= seq![]);
    out.push(blank);
    let mut title = String::new();
    title.push_str("  ");
    title.push_str(tag);
    assert(title@ =~= "  "@ + tag@);
    out.push(title);
    let notes = trimmed_notes(body);
    let ls = lines_of(notes.as_str());
    let ghost all = indented(lines(notes@), "    "@);
    let ghost head = start + seq![seq![], "  "@ + tag@];
    let mut i: usize = 0;
    assert(texts(out@) =~= head + all.take(0));
    while i < ls.len()
        invariant
            i <= ls@.len(),
            texts(ls@) == lines(notes@),
            all == indented(lines(notes@), "    "@),
            texts(out@) == head + all.take(i as int),
        decreases ls@.len() - i,
    {
        let ghost before = texts(out@);
        let mut line = String::new();
        line.push_str("    ");
        line.push_str(ls[i].as_str());
        assert(texts(ls@)[i as int] == ls@[i as int]@);
        assert(line@ =~= all[i as int]);
        out.push(line);
        assert(texts(out@) =~= before.push(line@));
        assert(head + all.take(i + 1) =~= (head + all.take(i as int)).push(all[i as int]));
        i = i + 1;
    }
    assert(texts(ls@).len() == ls@.len());
    assert(all.take(i as int) =~= all);
    assert(head + all =~= start + release_notes(tag@, opt_text(*body)));
}

/// One release's notes, indented under its tag. Blank or missing notes leave the tag alone.
pub fn print_release_notes(tag: &str, body: &Option<String>) -> (r: Vec<String>)
    ensures
        texts(r@) == release_notes(tag@, opt_text(*body)),
{
    let mut out: Vec<String> = Vec::new();
    push_release_notes(&mut out, tag, body);
    assert(Seq::<Seq<char>>::empty() + release_notes(tag@, opt_text(*body)) =~= release_notes(
        tag@,
        opt_text(*body),
    ));
    assert(texts(Seq::<String>::empty()) =~= Seq::<Seq<char>>::empty());
    out
}

/// Whether the user would gain a release by updating: a stable one, newer than what runs, up
/// to and including the target.
pub open spec fn is_pending(r: Release) -> bool {
    !r.prerelease && r.newer_than_current && !r.newer_than_target
}

/// The releases the user would gain by updating, in the order in which they are listed.
pub open spec fn pending(releases: Seq<Release>) -> Seq<Release>
    decreases releases.len(),
{
    if releases.len() == 0 {
        seq![]
    } else if is_pending(releases.last()) {
        pending(releases.drop_last()).push(releases.last())
    } else {
        pending(releases.drop_last())
    }
}

/// `r` put into a list that begins with the newest: behind all that are at least as new.
pub open spec fn placed(s: Seq<Release>, r: Release) -> Seq<Release>
    decreases s.len(),
{
    if s.len() == 0 || s.last().rank >= r.rank {
        s.push(r)
    } else {
        placed(s.drop_last(), r).push(s.last())
    }
}

/// The releases with the newest first; those of one rank stay in their order.
pub open spec fn newest_first(s: Seq<Release>) -> Seq<Release>
    decreases s.len(),
{
    if s.len() == 0 {
        seq![]
    } else {
        placed(newest_first(s.drop_last()), s.last())
    }
}

/// Whether a list begins with the newest release and goes on to older ones.
pub open spec fn begins_with_newest(s: Seq<Release>) -> bool {
    forall|i: int, j: int| 0 <= i < j < s.len() ==> (#[trigger] s[i]).rank >= (#[trigger] s[j]).rank
}

/// Putting a release in its place adds it, takes none away, and keeps the order.
proof fn lemma_placed(s: Seq<Release>, r: Release)
    requires
        begins_with_newest(s),
    ensures
        begins_with_newest(placed(s, r)),
        placed(s, r).len() == s.len() + 1,
        placed(s, r).to_multiset() == s.to_multiset().insert(r),
        placed(s, r).last().rank == (if s.len() > 0 && s.last().rank < r.rank {
            s.last().rank
        } else {
            r.rank
        }),
    decreases s.len(),
{
    broadcast use vstd::seq_lib::group_to_multiset_ensures;

    if s.len() == 0 || s.last().rank >= r.rank {
        assert forall|i: int, j: int| 0 <= i < j < placed(s, r).len() implies (
        #[trigger] placed(s, r)[i]).rank >= (#[trigger] placed(s, r)[j]).rank by {
            if j == s.len() && i < s.len() - 1 {
                assert(s[i].rank >= s[s.len() - 1].rank);
            }
        }
    } else {
        let init = s.drop_last();
        lemma_placed(init, r);
        let p = placed(init, r);
        assert(s =~= init.push(s.last()));
        assert(placed(s, r) == p.push(s.last()));
        if init.len() > 0 {
            assert(s[init.len() - 1].rank >= s.last().rank);
        }
        assert(p.last().rank >= s.last().rank);
        assert forall|i: int, j: int| 0 <= i < j < placed(s, r).len() implies (
        #[trigger] placed(s, r)[i]).rank >= (#[trigger] placed(s, r)[j]).rank by {
            if j == p.len() && i < p.len() - 1 {
                assert(p[i].rank >= p[p.len() - 1].rank);
            }
        }
        assert(s.to_multiset().insert(r) =~= init.to_multiset().insert(r).insert(s.last()));
    }
}

/// The newest release comes first and the others follow in turn; none is lost or added.
pub proof fn newest_release_comes_first(s: Seq<Release>)
    ensures
        begins_with_newest(newest_first(s)),
        newest_first(s).to_multiset() == s.to_multiset(),
        newest_first(s).len() == s.len(),
    decreases s.len(),
{
    broadcast use vstd::seq_lib::group_to_multiset_ensures;

    if s.len() > 0 {
        let init = s.drop_last();
        newest_release_comes_first(init);
        lemma_placed(newest_first(init), s.last());
        assert(s =~= init.push(s.last()));
    } else {
        assert(newest_first(s) =~= s);
    }
}

proof fn lemma_placed_at(s: Seq<Release>, r: Release, k: int)
    requires
        0 <= k <= s.len(),
        k > 0 ==> s[k - 1].rank >= r.rank,
        forall|j: int| k <= j < s.len() ==> (#[trigger] s[j]).rank < r.rank,
    ensures
        placed(s, r) == s.insert(k, r),
    decreases s.len(),
{
    if k == s.len() {
        assert(s.insert(k, r) =~= s.push(r));
    } else {
        let init = s.drop_last();
        assert(s.last() == s[s.len() - 1]);
        lemma_placed_at(init, r, k);
        assert(s.insert(k, r) =~= init.insert(k, r).push(s.last()));
    }
}

/// The releases that a list of positions picks.
pub open spec fn picked(releases: Seq<Release>, order: Seq<usize>) -> Seq<Release> {
    Seq::new(order.len(), |i: int| releases[order[i] as int])
}

/// The releases a list is about: those that are pending, or all of them.
pub open spec fn chosen(releases: Seq<Release>, pending_only: bool) -> Seq<Release> {
    if pending_only {
        pending(releases)
    } else {
        releases
    }
}

/// The positions of the releases a list is about, the newest first.
fn newest_order(releases: &Vec<Release>, pending_only: bool) -> (r: Vec<usize>)
    ensures
        forall|i: int| 0 <= i < r@.len() ==> (#[trigger] r@[i]) < releases@.len(),
        picked(releases@, r@) == newest_first(chosen(releases@, pending_only)),
{
    let mut order: Vec<usize> = Vec::new();
    let mut i: usize = 0;
    assert(picked(releases@, order@) =~= newest_first(chosen(releases@.take(0), pending_only)));
    while i < releases.len()
        invariant
            i <= releases@.len(),
            forall|j: int| 0 <= j < order@.len() ==> (#[trigger] order@[j]) < releases@.len(),
            picked(releases@, order@) == newest_first(
                chosen(releases@.take(i as int), pending_only),
            ),
        decreases releases@.len() - i,
    {
        let r = &releases[i];
        let ghost before = chosen(releases@.take(i as int), pending_only);
        let ghost after = chosen(releases@.take(i + 1), pending_only);
        assert(releases@.take(i + 1).drop_last() =~= releases@.take(i as int));
        let wanted: bool = !pending_only || (!r.prerelease && r.newer_than_current
            && !r.newer_than_target);
        if wanted {
            let mut k: usize = order.len();
            while k > 0 && releases[order[k - 1]].rank < r.rank
                invariant
                    k <= order@.len(),
                    forall|j: int|
                        0 <= j < order@.len() ==> (#[trigger] order@[j]) < releases@.len(),
                    forall|j: int|
                        k <= j < order@.len() ==> (#[trigger] picked(releases@, order@)[j]).rank
                            < r.rank,
                decreases k,
            {
                k = k - 1;
            }
            let ghost prior = order@;
            order.insert(k, i);
            proof {
                let p = picked(releases@, prior);
                assert(k > 0 ==> p[k - 1].rank >= r.rank);
                lemma_placed_at(p, *r, k as int);
                assert(picked(releases@, order@) =~= p.insert(k as int, *r));
                assert(after.drop_last() =~= before);
                assert(after.last() == *r);
            }
        }
        i = i + 1;
    }
    assert(releases@.take(i as int) =~= releases@);
    order
}

/// The notes of several releases, one after another.
pub open spec fn all_notes(releases: Seq<Release>) -> Seq<Seq<char>>
    decreases releases.len(),
{
    if releases.len() == 0 {
        seq![]
    } else {
        all_notes(releases.drop_last()) + release_notes(
            releases.last().tag_name@,
            opt_text(releases.last().body),
        )
    }
}

/// Whether an update asks for the list of releases to show what it brings: only on the
/// stable channel. A nightly shares its version with others, and a pinned release may be a
/// downgrade, so there the one release speaks for itself.
pub open spec fn walks_releases(nightly: bool, pinned: bool) -> bool {
    !nightly && !pinned
}

/// What an update shows before it installs.
pub open spec fn changelog(
    current: Seq<char>,
    latest: Seq<char>,
    release: Release,
    releases: Seq<Release>,
    nightly: bool,
    pinned: bool,
) -> Seq<Seq<char>> {
    if walks_releases(nightly, pinned) {
        if pending(releases).len() == 0 {
            seq![]
        } else {
            seq![seq![], "Changes in v"@ + current + " → v"@ + latest + ":"@] + all_notes(
                newest_first(pending(releases)),
            ) + seq![seq![]]
        }
    } else if notes_of(opt_text(release.body)).len() == 0 {
        seq![]
    } else {
        seq![seq![], "Release notes for "@ + release.tag_name@ + ":"@] + release_notes(
            release.tag_name@,
            opt_text(release.body),
        ) + seq![seq![]]
    }
}

fn push_picked_notes(out: &mut Vec<String>, releases: &Vec<Release>, order: &Vec<usize>)
    requires
        forall|i: int| 0 <= i < order@.len() ==> (#[trigger] order@[i]) < releases@.len(),
    ensures
        texts(final(out)@) == texts(old(out)@) + all_notes(picked(releases@, order@)),
{
    let ghost start = texts(out@);
    let ghost all = picked(releases@, order@);
    let mut i: usize = 0;
    assert(start + all_notes(all.take(0)) =~= start);
    while i < order.len()
        invariant
            i <= order@.len(),
            forall|j: int| 0 <= j < order@.len() ==> (#[trigger] order@[j]) < releases@.len(),
            all == picked(releases@, order@),
            texts(out@) == start + all_notes(all.take(i as int)),
        decreases order@.len() - i,
    {
        let r = &releases[order[i]];
        push_release_notes(out, r.tag_name.as_str(), &r.body);
        proof {
            let kept = all.take(i as int);
            let notes = release_notes(r.tag_name@, opt_text(r.body));
            assert(all.take(i + 1).drop_last() =~= kept);
            assert(all.take(i + 1).last() == *r);
            assert(start + all_notes(kept) + notes =~= start + (all_notes(kept) + notes));
        }
        i = i + 1;
    }
    assert(all.take(i as int) =~= all);
}

/// What an update shows before it installs: on the stable channel the notes of every listed
/// release it passes, newest first; otherwise those of the one release. Where there is nothing
/// to show, nothing is printed; a list that could not be had is an empty one.
pub fn print_pending_changelog(
    current: &str,
    latest: &str,
    release: &Release,
    releases: &Vec<Release>,
    nightly: bool,
    pinned: bool,
) -> (r: Vec<String>)
    ensures
        texts(r@) == changelog(current@, latest@, *release, releases@, nightly, pinned),
{
    let mut out: Vec<String> = Vec::new();
    assert(texts(out@) =~= seq![]);
    let mut title = String::new();
    let order: Vec<usize> = newest_order(releases, true);
    if nightly || pinned {
        let notes = trimmed_notes(&release.body);
        if chars_empty(notes.as_str()) {
            return out;
        }
        title.push_str("Release notes for ");
        title.push_str(release.tag_name.as_str());
        title.push_str(":");
        assert(title@ =~= "Release notes for "@ + release.tag_name@ + ":"@);
    } else {
        proof {
            newest_release_comes_first(pending(releases@));
            assert(order@.len() == picked(releases@, order@).len());
        }
        if order.len() == 0 {
            return out;
        }
        title.push_str("Changes in v");
        title.push_str(current);
        title.push_str(" → v");
        title.push_str(latest);
        title.push_str(":");
        assert(title@ =~= "Changes in v"@ + current@ + " → v"@ + latest@ + ":"@);
    }
    let ghost heading = title@;
    let blank = String::new();
    assert(blank@ =~= seq![]);
    out.push(blank);
    out.push(title);
    assert(texts(out@) =~= seq![seq![], heading]);
    if nightly || pinned {
        push_release_notes(&mut out, release.tag_name.as_str(), &release.body);
    } else {
        push_picked_notes(&mut out, releases, &order);
    }
    let ghost before = texts(out@);
    let blank = String::new();
    assert(blank@ =~= seq![]);
    out.push(blank);
    assert(texts(out@) =~= before + seq![seq![]]);
    out
}

fn chars_empty(s: &str) -> (r: bool)
    ensures
        r == (s@.len() == 0),
{
    let r: bool = text_eq(s, "");
    proof {
        reveal_strlit("");
        if s@.len() == 0 {
            assert(s@ =~= ""@);
        }
    }
    r
}

/// On the stable channel the notes are those of exactly the listed releases that the update
/// passes: each stable one in `(current, latest]`, and no other.
pub proof fn changelog_holds_exactly_what_the_update_brings(releases: Seq<Release>, r: Release)
    ensures
        pending(releases).contains(r) <==> releases.contains(r) && is_pending(r),
    decreases releases.len(),
{
    if releases.len() > 0 {
        let rest = releases.drop_last();
        let last = releases.last();
        changelog_holds_exactly_what_the_update_brings(rest, r);
        assert(releases =~= rest.push(last));
        assert(releases.contains(r) <==> rest.contains(r) || r == last) by {
            if rest.contains(r) {
                assert(releases[rest.index_of(r)] == r);
            }
            if r == last {
                assert(releases[releases.len() - 1] == r);
            }
        }
        let kept = pending(rest);
        assert(kept.push(last).contains(r) <==> kept.contains(r) || r == last) by {
            if kept.contains(r) {
                assert(kept.push(last)[kept.index_of(r)] == r);
            }
            if r == last {
                assert(kept.push(last)[kept.len() as int] == r);
            }
        }
    }
}

/// One line of the list of releases.
pub open spec fn list_line(r: Release, current: Seq<char>) -> Seq<char> {
    r.tag_name@ + (if r.prerelease {
        "  [pre-release]"@
    } else {
        seq![]
    }) + (if r.version@ == current {
        "  (installed)"@
    } else {
        seq![]
    })
}

/// The list of releases, newest first.
pub open spec fn release_list(releases: Seq<Release>, current: Seq<char>) -> Seq<Seq<char>> {
    if releases.len() == 0 {
        seq!["no releases published yet"@]
    } else {
        newest_first(releases).map_values(|r: Release| list_line(r, current))
    }
}

fn release_line(r: &Release, current: &str) -> (s: String)
    ensures
        s@ == list_line(*r, current@),
{
    let mut line = String::new();
    line.push_str(r.tag_name.as_str());
    if r.prerelease {
        line.push_str("  [pre-release]");
    }
    if text_eq(r.version.as_str(), current) {
        line.push_str("  (installed)");
    }
    assert(line@ =~= list_line(*r, current@));
    line
}

/// The lines that list the releases there are, newest first, the one that runs marked.
pub fn update_list(releases: &Vec<Release>, current: &str) -> (r: Vec<String>)
    ensures
        texts(r@) == release_list(releases@, current@),
{
    let mut out: Vec<String> = Vec::new();
    if releases.len() == 0 {
        out.push("no releases published yet".to_owned());
        assert(texts(out@) =~= seq!["no releases published yet"@]);
        return out;
    }
    let order: Vec<usize> = newest_order(releases, false);
    let ghost sorted = newest_first(releases@);
    let ghost all = sorted.map_values(|r: Release| list_line(r, current@));
    let mut i: usize = 0;
    assert(sorted.len() == order@.len());
    while i < order.len()
        invariant
            i <= order@.len(),
            forall|j: int| 0 <= j < order@.len() ==> (#[trigger] order@[j]) < releases@.len(),
            sorted == picked(releases@, order@),
            all == sorted.map_values(|r: Release| list_line(r, current@)),
            texts(out@) == all.take(i as int),
        decreases order@.len() - i,
    {
        let ghost before = texts(out@);
        let line = release_line(&releases[order[i]], current);
        out.push(line);
        assert(texts(out@) =~= before.push(line@));
        assert(all.take(i + 1) =~= all.take(i as int).push(all[i as int]));
        i = i + 1;
    }
    assert(all.take(i as int) =~= all);
    out
}

} // verus!
