//! How new releases are, compared with each other.

use vstd::prelude::*;

use crate::update::changelog::{
    begins_with_newest, newest_first, newest_release_comes_first, pending, Release,
};

verus! {

/// How many of the answers are yes.
pub open spec fn yes_count(answers: Seq<bool>) -> nat
    decreases answers.len(),
{
    if answers.len() == 0 {
        0
    } else if answers.last() {
        yes_count(answers.drop_last()) + 1
    } else {
        yes_count(answers.drop_last())
    }
}

/// The answers for the release at a position: whether its version is newer than that of each
/// release in turn.
pub open spec fn answers_at(newer: Seq<Vec<bool>>, i: int) -> Seq<bool> {
    if 0 <= i < newer.len() {
        newer[i]@
    } else {
        seq![]
    }
}

/// The rank of the release at a position: how many releases it is newer than.
pub open spec fn rank_at(newer: Seq<Vec<bool>>, i: int) -> nat {
    yes_count(answers_at(newer, i))
}

/// Whether the answers about `n` releases make sense together: there is one for every two of
/// them, none is newer than itself, and one newer than a newer one is newer too.
pub open spec fn is_order(newer: Seq<Vec<bool>>, n: nat) -> bool {
    &&& newer.len() == n
    &&& forall|i: int| 0 <= i < n ==> (#[trigger] newer[i])@.len() == n
    &&& forall|i: int| 0 <= i < n ==> !(#[trigger] newer[i]@[i])
    &&& forall|i: int, j: int, k: int|
        0 <= i < n && 0 <= j < n && 0 <= k < n && #[trigger] newer[i]@[j] && #[trigger] newer[j]@[k]
            ==> newer[i]@[k]
}

fn count_yes(answers: &Vec<bool>) -> (r: u64)
    ensures
        r == yes_count(answers@),
        r <= answers@.len(),
{
    let mut count: u64 = 0;
    let mut i: usize = 0;
    while i < answers.len()
        invariant
            i <= answers@.len(),
            count <= i,
            count == yes_count(answers@.take(i as int)),
        decreases answers@.len() - i,
    {
        assert(answers@.take(i + 1).drop_last() =~= answers@.take(i as int));
        if answers[i] {
            count = count + 1;
        }
        i = i + 1;
    }
    assert(answers@.take(i as int) =~= answers@);
    count
}

/// Ranks releases by their versions. `newer` holds, for each release, whether its version is
/// newer than that of each release in turn; one without answers is newer than none.
pub fn rank_by_version(releases: &mut Vec<Release>, newer: &Vec<Vec<bool>>)
    ensures
        final(releases)@.len() == old(releases)@.len(),
        forall|i: int|
            0 <= i < old(releases)@.len() ==> (#[trigger] final(releases)@[i]) == (Release {
                rank: rank_at(newer@, i) as u64,
                ..old(releases)@[i]
            }) && final(releases)@[i].rank == rank_at(newer@, i),
        is_order(newer@, old(releases)@.len()) ==> forall|i: int, j: int|
            0 <= i < old(releases)@.len() && 0 <= j < old(releases)@.len() && newer@[i]@[j] ==> (
            #[trigger] final(releases)@[i]).rank > (#[trigger] final(releases)@[j]).rank,
{
    let ghost start = releases@;
    let mut i: usize = 0;
    while i < releases.len()
        invariant
            i <= releases@.len(),
            releases@.len() == start.len(),
            forall|j: int|
                0 <= j < i ==> (#[trigger] releases@[j]) == (Release {
                    rank: rank_at(newer@, j) as u64,
                    ..start[j]
                }) && releases@[j].rank == rank_at(newer@, j),
            forall|j: int| i <= j < start.len() ==> (#[trigger] releases@[j]) == start[j],
        decreases releases@.len() - i,
    {
        let rank: u64 = if i < newer.len() {
            count_yes(&newer[i])
        } else {
            0
        };
        releases[i].rank = rank;
        i = i + 1;
    }
    proof {
        if is_order(newer@, start.len()) {
            assert forall|i: int, j: int|
                0 <= i < start.len() && 0 <= j < start.len() && newer@[i]@[j] implies (
            #[trigger] releases@[i]).rank > (#[trigger] releases@[j]).rank by {
                newer_release_ranks_higher(newer@, start.len(), i, j);
            }
        }
    }
}

/// Ranks releases that are listed with the newest first by where they stand.
pub fn rank_as_listed(releases: &mut Vec<Release>)
    ensures
        final(releases)@.len() == old(releases)@.len(),
        forall|i: int|
            0 <= i < old(releases)@.len() ==> (#[trigger] final(releases)@[i]) == (Release {
                rank: (old(releases)@.len() - 1 - i) as u64,
                ..old(releases)@[i]
            }) && final(releases)@[i].rank == old(releases)@.len() - 1 - i,
        forall|i: int, j: int|
            0 <= i < j < old(releases)@.len() ==> (#[trigger] final(releases)@[i]).rank > (
            #[trigger] final(releases)@[j]).rank,
{
    let ghost start = releases@;
    let n: usize = releases.len();
    let mut i: usize = 0;
    while i < n
        invariant
            i <= n,
            n == start.len(),
            releases@.len() == start.len(),
            forall|j: int|
                0 <= j < i ==> (#[trigger] releases@[j]) == (Release {
                    rank: (n - 1 - j) as u64,
                    ..start[j]
                }) && releases@[j].rank == n - 1 - j,
            forall|j: int| i <= j < start.len() ==> (#[trigger] releases@[j]) == start[j],
        decreases n - i,
    {
        releases[i].rank = (n - 1 - i) as u64;
        i = i + 1;
    }
}

proof fn lemma_more_yes(a: Seq<bool>, b: Seq<bool>)
    requires
        a.len() == b.len(),
        forall|k: int| 0 <= k < b.len() && #[trigger] b[k] ==> a[k],
    ensures
        yes_count(a) >= yes_count(b),
        (exists|k: int| 0 <= k < a.len() && #[trigger] a[k] && !b[k]) ==> yes_count(a) > yes_count(b),
    decreases a.len(),
{
    if a.len() > 0 {
        let x = a.drop_last();
        let y = b.drop_last();
        assert forall|k: int| 0 <= k < y.len() && #[trigger] y[k] implies x[k] by {
            assert(b[k]);
        }
        lemma_more_yes(x, y);
        assert(b.last() ==> a.last()) by {
            assert(b[b.len() - 1] == b.last());
        }
        if exists|k: int| 0 <= k < a.len() && #[trigger] a[k] && !b[k] {
            let k = choose|k: int| 0 <= k < a.len() && #[trigger] a[k] && !b[k];
            if k < x.len() {
                assert(x[k] && !y[k]);
            }
        }
    }
}

/// A release that is newer than another has the higher rank.
pub proof fn newer_release_ranks_higher(newer: Seq<Vec<bool>>, n: nat, i: int, j: int)
    requires
        is_order(newer, n),
        0 <= i < n,
        0 <= j < n,
        newer[i]@[j],
    ensures
        rank_at(newer, i) > rank_at(newer, j),
{
    let a = newer[i]@;
    let b = newer[j]@;
    assert forall|k: int| 0 <= k < b.len() && #[trigger] b[k] implies a[k] by {
        assert(newer[i]@[j] && newer[j]@[k]);
    }
    assert(!newer[j]@[j]);
    assert(a[j] && !b[j]);
    lemma_more_yes(a, b);
}

/// On the stable channel the notes of a newer release come before those of an older one,
/// however the two are listed: wherever they stand in what is shown, the newer stands first.
pub proof fn newer_notes_come_first(
    releases: Seq<Release>,
    newer: Seq<Vec<bool>>,
    i: int,
    j: int,
    p: int,
    q: int,
)
    requires
        is_order(newer, releases.len()),
        forall|k: int|
            0 <= k < releases.len() ==> (#[trigger] releases[k]).rank == rank_at(newer, k),
        0 <= i < releases.len(),
        0 <= j < releases.len(),
        newer[i]@[j],
        0 <= p < newest_first(pending(releases)).len(),
        0 <= q < newest_first(pending(releases)).len(),
        newest_first(pending(releases))[p] == releases[i],
        newest_first(pending(releases))[q] == releases[j],
    ensures
        p < q,
{
    newer_release_ranks_higher(newer, releases.len(), i, j);
    newest_release_comes_first(pending(releases));
    let shown = newest_first(pending(releases));
    assert(begins_with_newest(shown));
    assert(shown[p].rank > shown[q].rank);
}

} // verus!
