//! The pages that a list of releases comes in.

use vstd::prelude::*;

use crate::digits::{decimal, decimal_text};
use crate::text::opt_text;
use crate::update::changelog::{walks_releases, Release};
use crate::update::list_url;

verus! {

/// How many releases a page holds.
pub const RELEASES_PER_PAGE: usize = 100;

/// Where a page of the list of releases is asked for; the first needs no number.
pub open spec fn page_url(slug: Seq<char>, page: nat) -> Seq<char> {
    if page <= 1 {
        list_url(slug, "100"@)
    } else {
        list_url(slug, "100"@) + "&page="@ + decimal(page)
    }
}

/// Where a page of the list of releases is asked for, if an update asks for the list to show
/// what it brings.
pub fn changelog_url(slug: &str, nightly: bool, pinned: bool, page: u64) -> (r: Option<String>)
    ensures
        opt_text(r) == (if walks_releases(nightly, pinned) {
            Some(page_url(slug@, page as nat))
        } else {
            None
        }),
{
    if nightly || pinned {
        return None;
    }
    let mut url = String::new();
    url.push_str("https://api.github.com/repos/");
    url.push_str(slug);
    url.push_str("/releases?per_page=");
    url.push_str("100");
    assert(url@ =~= list_url(slug@, "100"@));
    if page > 1 {
        url.push_str("&page=");
        url.push_str(decimal_text(page).as_str());
        assert(url@ =~= page_url(slug@, page as nat));
    }
    Some(url)
}

/// The page after one that held so many releases: one that was not full was the last.
pub open spec fn page_after(page: nat, received: nat) -> Option<nat> {
    if received >= RELEASES_PER_PAGE {
        Some(page + 1)
    } else {
        None
    }
}

/// What to do next in walking the list of releases.
#[derive(Clone, Copy, Debug, PartialEq, Eq, Structural)]
pub enum WalkStep {
    /// Ask for this page.
    Ask(u64),
    /// Every release is there.
    Show,
    /// A page could not be had: nothing is shown.
    GiveUp,
}

/// Goes on from a page that held so many releases, or that could not be had. Walking begins
/// with the first page.
pub fn next_walk_step(page: u64, received: Option<usize>) -> (r: WalkStep)
    ensures
        received is None ==> r == WalkStep::GiveUp,
        received is Some && page < u64::MAX ==> r == (match page_after(
            page as nat,
            received->0 as nat,
        ) {
            Some(next) => WalkStep::Ask(next as u64),
            None => WalkStep::Show,
        }),
        received is Some && page == u64::MAX ==> r == WalkStep::Show,
        r == WalkStep::GiveUp <==> received is None,
        r matches WalkStep::Ask(next) ==> next == page + 1 && received->0 >= 100,
        received is Some && received->0 < 100 ==> r == WalkStep::Show,
{
    match received {
        None => WalkStep::GiveUp,
        Some(n) => if n >= RELEASES_PER_PAGE && page < u64::MAX {
            WalkStep::Ask(page + 1)
        } else {
            WalkStep::Show
        },
    }
}

/// Where a page begins in a list of so many releases, or where the list ends before it.
pub open spec fn page_start(count: nat, page: nat) -> int {
    let start = (page - 1) * RELEASES_PER_PAGE;
    if start <= count {
        start
    } else {
        count as int
    }
}

/// What a page of the list `all` holds; pages are counted from one.
pub open spec fn page_of(all: Seq<Release>, page: nat) -> Seq<Release> {
    all.subrange(page_start(all.len(), page), page_start(all.len(), page + 1))
}

/// What is had of the list `all` from a page on, going on as long as there is a page after.
pub open spec fn walked(all: Seq<Release>, page: nat) -> Seq<Release>
    decreases all.len() + 100 - page * 100,
    when page >= 1
{
    let here = page_of(all, page);
    match page_after(page, here.len()) {
        Some(p) => here + walked(all, page + 1),
        None => here,
    }
}

/// Going from page to page brings every published release, once and in its place, however
/// many there are.
pub proof fn every_published_release_is_walked(all: Seq<Release>)
    ensures
        walked(all, 1) == all,
{
    lemma_walked(all, 1);
    assert(all.skip(0) =~= all);
}

proof fn lemma_walked(all: Seq<Release>, page: nat)
    requires
        page >= 1,
        (page - 1) * 100 <= all.len(),
    ensures
        walked(all, page) == all.skip((page - 1) * 100),
    decreases all.len() + 100 - page * 100,
{
    let here = page_of(all, page);
    let start = (page - 1) * 100;
    assert(page_start(all.len(), page) == start);
    if here.len() >= RELEASES_PER_PAGE {
        lemma_walked(all, page + 1);
        assert(here =~= all.subrange(start, start + 100));
        assert(here + all.skip(start + 100) =~= all.skip(start));
    } else {
        assert(here =~= all.skip(start));
    }
}

} // verus!
