//! How IPv6 addresses are spelled.

use vstd::prelude::*;

use crate::addr::{
    best_run, gap, hex_group, lemma_gap_skip, lemma_split_whole, lemma_zero_run, pieces, read_groups,
    read_v4, read_v6, zero_run, zeros,
};
use crate::digits::{hex_value, is_hex_digit};
use crate::text::{join, lemma_split_join};

verus! {

/// Whether a text is one to four hexadecimal digits, of either case and with zeros in front or
/// without.
pub open spec fn is_group(w: Seq<char>) -> bool {
    1 <= w.len() <= 4 && forall|i: int|
        0 <= i < w.len() ==> (48 <= (#[trigger] w[i]) as u32 <= 57 || 97 <= w[i] as u32 <= 102 || 65
            <= w[i] as u32 <= 70)
}

/// Whether all the texts are groups.
pub open spec fn are_groups(g: Seq<Seq<char>>) -> bool {
    forall|i: int| 0 <= i < g.len() ==> is_group(#[trigger] g[i])
}

/// What the groups count.
pub open spec fn values(g: Seq<Seq<char>>) -> Seq<u16> {
    Seq::new(g.len(), |i: int| hex_value(g[i]) as u16)
}

proof fn lemma_group(w: Seq<char>)
    requires
        is_group(w),
    ensures
        hex_group(w) == Some(hex_value(w) as u16),
        !w.contains(':'),
        read_v4(w) is None,
        w[0] != ':' && w.last() != ':',
{
    assert forall|i: int| 0 <= i < w.len() implies is_hex_digit(#[trigger] w[i]) && w[i] != ':'
        && w[i] != '.' by {}
    lemma_split_whole(w, '.');
}

proof fn lemma_read_values(g: Seq<Seq<char>>, tail: bool)
    requires
        are_groups(g),
    ensures
        read_groups(g, tail) == Some(values(g)),
    decreases g.len(),
{
    if g.len() == 0 {
        assert(values(g) =~= seq![]);
    } else {
        let rest = g.drop_first();
        assert(is_group(g[0]));
        lemma_group(g[0]);
        assert forall|i: int| 0 <= i < rest.len() implies is_group(#[trigger] rest[i]) by {
            assert(rest[i] == g[i + 1]);
        }
        lemma_read_values(rest, tail);
        assert(seq![hex_value(g[0]) as u16] + values(rest) =~= values(g));
    }
}

proof fn lemma_joined_groups(g: Seq<Seq<char>>)
    requires
        are_groups(g),
    ensures
        ({
            let t = join(g, seq![':']);
            &&& g.len() == 0 ==> t.len() == 0
            &&& g.len() > 0 ==> t.len() > 0 && t[0] != ':' && t.last() != ':'
            &&& forall|i: int| 0 <= i && i + 1 < t.len() ==> !(#[trigger] t[i] == ':' && t[i + 1] == ':')
            &&& pieces(t) == g
        }),
    decreases g.len(),
{
    let sep = seq![':'];
    let t = join(g, sep);
    if g.len() == 0 {
        assert(pieces(t) =~= g);
    } else {
        let w = g.last();
        assert(is_group(g[g.len() - 1]));
        lemma_group(w);
        assert forall|i: int| 0 <= i < g.len() implies !(#[trigger] g[i]).contains(':') by {
            lemma_group(g[i]);
        }
        lemma_split_join(g, ':');
        assert forall|i: int| 0 <= i < w.len() implies #[trigger] w[i] != ':' by {
            assert(w.contains(w[i]));
        }
        if g.len() == 1 {
            assert(t == w);
        } else {
            let init = g.drop_last();
            assert forall|i: int| 0 <= i < init.len() implies is_group(#[trigger] init[i]) by {
                assert(init[i] == g[i]);
            }
            lemma_joined_groups(init);
            let h = join(init, sep);
            assert(t =~= h + sep + w);
            assert forall|i: int| 0 <= i && i + 1 < t.len() implies !(#[trigger] t[i] == ':' && t[i
                + 1] == ':') by {
                if i + 1 < h.len() {
                    assert(t[i] == h[i] && t[i + 1] == h[i + 1]);
                } else if i + 1 == h.len() {
                    assert(t[i] == h.last());
                } else {
                    assert(t[i + 1] == w[i - h.len()]);
                }
            }
        }
    }
}

/// Eight groups between single colons are an address, each group counting what its digits say;
/// any other number of groups is none.
pub proof fn eight_groups_are_an_address(g: Seq<Seq<char>>)
    requires
        are_groups(g),
    ensures
        g.len() == 8 ==> read_v6(join(g, seq![':'])) == Some(values(g)),
        g.len() != 8 ==> read_v6(join(g, seq![':'])) is None,
{
    let s = join(g, seq![':']);
    lemma_joined_groups(g);
    lemma_read_values(g, true);
    lemma_gap_skip(s, s.len() as int);
    assert(s.skip(s.len() as int).len() == 0);
}

/// A double colon stands for as many zero groups as are missing, and for one at least; one that
/// leaves nothing to stand for makes no address.
pub proof fn a_double_colon_stands_for_the_missing_zeros(h: Seq<Seq<char>>, t: Seq<Seq<char>>)
    requires
        are_groups(h),
        are_groups(t),
    ensures
        ({
            let s = join(h, seq![':']) + seq![':', ':'] + join(t, seq![':']);
            &&& h.len() + t.len() <= 7 ==> read_v6(s) == Some(
                values(h) + zeros((8 - h.len() - t.len()) as nat) + values(t),
            )
            &&& h.len() + t.len() > 7 ==> read_v6(s) is None
        }),
{
    let a = join(h, seq![':']);
    let b = join(t, seq![':']);
    let s = a + seq![':', ':'] + b;
    lemma_joined_groups(h);
    lemma_joined_groups(t);
    lemma_read_values(h, false);
    lemma_read_values(t, true);
    assert forall|i: int| 0 <= i < a.len() && i + 1 < s.len() implies !(#[trigger] s[i] == ':' && s[i
        + 1] == ':') by {
        assert(s[i] == a[i]);
        if i + 1 < a.len() {
            assert(s[i + 1] == a[i + 1]);
        }
    }
    lemma_gap_skip(s, a.len() as int);
    let r = s.skip(a.len() as int);
    assert(r[0] == ':' && r[1] == ':');
    assert(gap(s) == a.len());
    assert(s.take(a.len() as int) =~= a);
    assert(s.skip(a.len() as int + 2) =~= b);
}

proof fn lemma_best(x: Seq<u16>, k: nat)
    ensures
        best_run(x, k) <= k,
        forall|i: int| 0 <= i <= k ==> #[trigger] zero_run(x, i) <= zero_run(x, best_run(x, k) as int),
        forall|i: int|
            0 <= i < best_run(x, k) ==> #[trigger] zero_run(x, i) < zero_run(
                x,
                best_run(x, k) as int,
            ),
    decreases k,
{
    if k > 0 {
        lemma_best(x, (k - 1) as nat);
    }
}

/// The zeros that a written address leaves out are its longest run of them, and the first where
/// several are as long; and a run reaches as far as there are zeros.
pub proof fn the_first_of_the_longest_runs_is_left_out(x: Seq<u16>, i: int)
    requires
        x.len() == 8,
        0 <= i < 8,
    ensures
        ({
            let b = best_run(x, 7) as int;
            let n = zero_run(x, b);
            &&& 0 <= b < 8
            &&& zero_run(x, i) <= n
            &&& i < b ==> zero_run(x, i) < n
            &&& b + n < 8 ==> x[b + n] != 0
            &&& b <= i < b + n ==> x[i] == 0
        }),
{
    let b = best_run(x, 7) as int;
    lemma_best(x, 7);
    lemma_zero_run(x, b);
    lemma_run_ends(x, b);
}

proof fn lemma_run_ends(x: Seq<u16>, i: int)
    requires
        0 <= i <= x.len(),
    ensures
        i + zero_run(x, i) < x.len() ==> x[i + zero_run(x, i)] != 0,
    decreases x.len() - i,
{
    if i < x.len() && x[i] == 0 {
        lemma_run_ends(x, i + 1);
    }
}

} // verus!
