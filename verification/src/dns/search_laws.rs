//! What the search lists promise.

use vstd::prelude::*;

use crate::dns::resolv_conf::{
    distinct, distinct_listed, merged_domains, merged_listed, said, MAX_SEARCH_DOMAINS,
};
use crate::dns::search::{dot_domain, network_domain, network_of, ours};
use crate::dns::DNS_DOMAIN;
use crate::text::ends_with;

verus! {

/// A network's search domain is the mesh's, and names that network and no other; the root
/// names none.
pub proof fn search_domain_names_its_network(n: Seq<char>)
    requires
        n.len() > 0,
        !n.contains('.'),
    ensures
        network_of(network_domain(n)) == Some(n),
        ours(network_domain(n)),
        network_of(DNS_DOMAIN@) is None,
        ours(DNS_DOMAIN@),
{
    let d = network_domain(n);
    assert(d.skip(n.len() as int) =~= dot_domain());
    assert(d.take(n.len() as int) =~= n);
    assert(dot_domain().len() == DNS_DOMAIN@.len() + 1);
}

/// Two networks with one search domain are one network, so no suffix is applied twice: the
/// search domain of a search domain is another one.
pub proof fn suffix_is_applied_once(n: Seq<char>, m: Seq<char>)
    ensures
        network_domain(n) == network_domain(m) ==> n == m,
        network_domain(network_domain(n)) != network_domain(n),
{
    if network_domain(n) == network_domain(m) {
        assert(network_domain(n).take(n.len() as int) =~= n);
        assert(network_domain(m).take(m.len() as int) =~= m);
    }
    assert(network_domain(network_domain(n)).len() == network_domain(n).len()
        + dot_domain().len());
}

proof fn lemma_distinct(ds: Seq<Seq<char>>)
    ensures
        distinct(ds).no_duplicates(),
        forall|d: Seq<char>| distinct(ds).contains(d) <==> ds.contains(d),
    decreases ds.len(),
{
    if ds.len() > 0 {
        let init = ds.drop_last();
        let last = ds.last();
        lemma_distinct(init);
        let kept = distinct(init);
        assert(ds =~= init.push(last));
        assert forall|d: Seq<char>| distinct(ds).contains(d) <==> ds.contains(d) by {
            assert(kept.contains(d) <==> init.contains(d));
            if init.contains(d) {
                let i = init.index_of(d);
                assert(ds[i] == d);
                let j = kept.index_of(d);
                assert(distinct(ds)[j] == d);
            }
            if d == last {
                assert(ds[ds.len() - 1] == d);
                if kept.contains(last) {
                    assert(distinct(ds)[kept.index_of(last)] == d);
                } else {
                    assert(distinct(ds)[kept.len() as int] == d);
                }
            }
        }
        if !kept.contains(last) {
            assert(distinct(ds) =~= kept.push(last));
            assert forall|i: int, j: int|
                0 <= i < distinct(ds).len() && 0 <= j < distinct(ds).len() && i != j implies distinct(
                ds,
            )[i] != distinct(ds)[j] by {
                if i < kept.len() && j < kept.len() {
                    assert(kept[i] != kept[j]);
                } else if i < kept.len() {
                    assert(kept.contains(kept[i]));
                } else {
                    assert(kept.contains(kept[j]));
                }
            }
        }
    } else {
        assert(distinct(ds) =~= seq![]);
    }
}

proof fn lemma_distinct_begins(a: Seq<Seq<char>>, b: Seq<Seq<char>>)
    ensures
        distinct(a).len() <= distinct(a + b).len(),
        distinct(a + b).take(distinct(a).len() as int) == distinct(a),
    decreases b.len(),
{
    if b.len() == 0 {
        assert(a + b =~= a);
        assert(distinct(a).take(distinct(a).len() as int) =~= distinct(a));
    } else {
        lemma_distinct_begins(a, b.drop_last());
        assert((a + b).drop_last() =~= a + b.drop_last());
        let n = distinct(a).len() as int;
        assert(distinct(a + b).take(n) =~= distinct(a + b.drop_last()).take(n));
    }
}

/// The merged search list holds no domain twice and no more than the resolver reads, and
/// nothing that neither side asked for; where the catch-all was asked for, it is there.
pub proof fn merged_list_fits_and_keeps_the_catch_all(host: Seq<Seq<char>>, mesh: Seq<Seq<char>>)
    ensures
        merged_domains(host, mesh).len() <= MAX_SEARCH_DOMAINS,
        merged_domains(host, mesh).no_duplicates(),
        (host + mesh).contains(DNS_DOMAIN@) ==> merged_domains(host, mesh).contains(DNS_DOMAIN@),
        forall|i: int|
            0 <= i < merged_domains(host, mesh).len() ==> (host + mesh).contains(
                #[trigger] merged_domains(host, mesh)[i],
            ),
{
    let all = distinct(host + mesh);
    let merged = merged_domains(host, mesh);
    lemma_distinct(host + mesh);
    let cut = all.take(MAX_SEARCH_DOMAINS as int);
    let five = all.take(MAX_SEARCH_DOMAINS - 1);
    if all.len() > MAX_SEARCH_DOMAINS && all.contains(DNS_DOMAIN@) && !cut.contains(DNS_DOMAIN@) {
        assert(merged =~= five.push(DNS_DOMAIN@));
        assert(merged[MAX_SEARCH_DOMAINS - 1] == DNS_DOMAIN@);
        assert forall|i: int| 0 <= i < MAX_SEARCH_DOMAINS - 1 implies five[i] != DNS_DOMAIN@ by {
            assert(cut[i] == five[i]);
            assert(cut.contains(cut[i]));
        }
    }
    assert forall|i: int| 0 <= i < merged.len() implies (host + mesh).contains(
        #[trigger] merged[i],
    ) by {
        if merged[i] != DNS_DOMAIN@ || !all.contains(DNS_DOMAIN@) {
            assert(merged[i] == all[i]);
            assert(all.contains(all[i]));
        }
    }
}

/// The host's own domains come first in the merged list, in their order, as far as the list
/// goes: they resolved before ours did.
pub proof fn merged_list_begins_with_the_hosts(host: Seq<Seq<char>>, mesh: Seq<Seq<char>>, i: int)
    requires
        0 <= i < distinct(host).len(),
        i < MAX_SEARCH_DOMAINS - 1,
    ensures
        i < merged_domains(host, mesh).len(),
        merged_domains(host, mesh)[i] == distinct(host)[i],
{
    let all = distinct(host + mesh);
    lemma_distinct_begins(host, mesh);
    assert(all[i] == all.take(distinct(host).len() as int)[i]);
}

/// A domain is ours exactly where it is `ray` or ends in `.ray`; so `notray` and `ray.example`
/// are not.
pub proof fn ours_are_ray_and_what_lies_under_it(d: Seq<char>)
    ensures
        ours(d) <==> d == "ray"@ || ends_with(d, ".ray"@),
{
    reveal_strlit("ray");
    reveal_strlit(".ray");
    assert(dot_domain() =~= ".ray"@);
}

/// A domain names the network `n` exactly where it is `n.ray` and `n` is one label: neither the
/// root nor anything deeper names one.
pub proof fn only_a_label_under_ray_names_a_network(d: Seq<char>, n: Seq<char>)
    ensures
        network_of(d) == Some(n) <==> d == n + ".ray"@ && n.len() > 0 && !n.contains('.'),
        network_domain(n) == n + ".ray"@,
{
    reveal_strlit("ray");
    reveal_strlit(".ray");
    assert(dot_domain() =~= ".ray"@);
    let k = d.len() - dot_domain().len();
    if d == n + ".ray"@ {
        assert(d.skip(n.len() as int) =~= dot_domain());
        assert(d.take(n.len() as int) =~= n);
    }
    if network_of(d) == Some(n) {
        assert(d =~= d.take(k) + d.skip(k));
    }
}

/// Each text that a list comes down to stands where it first stood: everything before its first
/// place is there before it.
proof fn lemma_distinct_in_order(ds: Seq<Seq<char>>, i: int)
    requires
        0 <= i < distinct(ds).len(),
    ensures
        exists|p: int|
            0 <= p < ds.len() && #[trigger] ds[p] == distinct(ds)[i] && forall|q: int|
                0 <= q < p ==> distinct(ds).take(i).contains(#[trigger] ds[q]),
    decreases ds.len(),
{
    let init = ds.drop_last();
    let kept = distinct(init);
    if i < kept.len() {
        lemma_distinct_in_order(init, i);
        let p = choose|p: int|
            0 <= p < init.len() && #[trigger] init[p] == kept[i] && forall|q: int|
                0 <= q < p ==> kept.take(i).contains(#[trigger] init[q]);
        assert(ds[p] == distinct(ds)[i]);
        assert(distinct(ds).take(i) =~= kept.take(i));
        assert forall|q: int| 0 <= q < p implies distinct(ds).take(i).contains(#[trigger] ds[q]) by {
            assert(init[q] == ds[q]);
        }
    } else {
        let p = ds.len() - 1;
        lemma_distinct(init);
        assert(distinct(ds).take(i) =~= kept);
        assert forall|q: int| 0 <= q < p implies distinct(ds).take(i).contains(#[trigger] ds[q]) by {
            assert(init[q] == ds[q]);
            assert(init.contains(init[q]));
        }
        assert(ds[p] == distinct(ds)[i]);
    }
}

/// Everything that both sides asked for is in the merged list, where it fits into the six places
/// that the resolver reads; where it does not, all six are filled.
pub proof fn the_merged_list_loses_nothing_it_has_room_for(
    host: Seq<Seq<char>>,
    mesh: Seq<Seq<char>>,
    d: Seq<char>,
)
    ensures
        merged_domains(host, mesh).len() == 6 || (host.contains(d) || mesh.contains(d)
            ==> merged_domains(host, mesh).contains(d)),
        merged_domains(host, mesh).len() <= 6,
        (exists|six: Seq<Seq<char>>|
            six.len() <= 6 && forall|x: Seq<char>|
                (host + mesh).contains(x) ==> #[trigger] six.contains(x)) && (host.contains(d)
            || mesh.contains(d)) ==> merged_domains(host, mesh).contains(d),
{
    let all = distinct(host + mesh);
    lemma_distinct(host + mesh);
    if host.contains(d) {
        assert((host + mesh)[host.index_of(d)] == d);
    }
    if mesh.contains(d) {
        assert((host + mesh)[host.len() + mesh.index_of(d)] == d);
    }
    assert(all.contains(d) <==> (host + mesh).contains(d));
    if exists|six: Seq<Seq<char>>|
        six.len() <= 6 && forall|x: Seq<char>|
            (host + mesh).contains(x) ==> #[trigger] six.contains(x) {
        let six = choose|six: Seq<Seq<char>>|
            six.len() <= 6 && forall|x: Seq<char>|
                (host + mesh).contains(x) ==> #[trigger] six.contains(x);
        assert forall|x: Seq<char>| all.contains(x) implies #[trigger] six.contains(x) by {
            assert((host + mesh).contains(x));
        }
        lemma_no_more_than(all, six);
    }
}

/// A list without repetitions whose texts are all in another is no longer than that one.
proof fn lemma_no_more_than(a: Seq<Seq<char>>, b: Seq<Seq<char>>)
    requires
        a.no_duplicates(),
        forall|x: Seq<char>| a.contains(x) ==> #[trigger] b.contains(x),
    ensures
        a.len() <= b.len(),
{
    a.unique_seq_to_set();
    b.lemma_cardinality_of_set();
    assert(a.to_set().subset_of(b.to_set())) by {
        assert forall|x: Seq<char>| a.to_set().contains(x) implies b.to_set().contains(x) by {
            assert(a.contains(x));
            assert(b.contains(x));
        }
    }
    vstd::set_lib::lemma_len_subset(a.to_set(), b.to_set());
}

/// The merged list is in the order in which the domains were asked for, the host's before ours:
/// all that stood before a domain's first place stands before it, but for a catch-all that takes
/// the last place of a list that was cut.
pub proof fn the_merged_list_is_in_order(host: Seq<Seq<char>>, mesh: Seq<Seq<char>>, i: int)
    requires
        0 <= i < merged_domains(host, mesh).len(),
    ensures
        ({
            let merged = merged_domains(host, mesh);
            let asked = host + mesh;
            ||| i == 5 && merged[i] == "ray"@ && asked.contains("ray"@)
            ||| exists|p: int|
                0 <= p < asked.len() && #[trigger] asked[p] == merged[i] && forall|q: int|
                    0 <= q < p ==> merged.take(i).contains(#[trigger] asked[q])
        }),
{
    let asked = host + mesh;
    let all = distinct(asked);
    let merged = merged_domains(host, mesh);
    lemma_distinct(asked);
    assert(DNS_DOMAIN@ == "ray"@);
    if i < 5 || merged[i] == all[i] {
        assert(merged[i] == all[i]);
        lemma_distinct_in_order(asked, i);
        assert(merged.take(i) =~= all.take(i));
    }
}

/// Whose a merged domain is: the flag is that of the first entry with its text, so a domain that
/// the host had stays the host's; only a catch-all that is put back in the last place is ours by
/// itself.
pub proof fn a_merged_domain_is_whose_it_was_first(
    host: Seq<(Seq<char>, bool)>,
    mesh: Seq<(Seq<char>, bool)>,
    i: int,
)
    requires
        0 <= i < merged_listed(host, mesh).len(),
    ensures
        ({
            let merged = merged_listed(host, mesh);
            let asked = host + mesh;
            ||| i == 5 && merged[i] == ("ray"@, false)
            ||| exists|p: int|
                0 <= p < asked.len() && #[trigger] asked[p] == merged[i] && forall|q: int|
                    0 <= q < p ==> (#[trigger] asked[q]).0 != merged[i].0
        }),
{
    let asked = host + mesh;
    let all = distinct_listed(asked);
    let merged = merged_listed(host, mesh);
    assert(DNS_DOMAIN@ == "ray"@);
    if i < 5 || merged[i] == all[i] {
        assert(merged[i] == all[i]);
        lemma_first_entry(asked, i);
    }
}

proof fn lemma_first_entry(ds: Seq<(Seq<char>, bool)>, i: int)
    requires
        0 <= i < distinct_listed(ds).len(),
    ensures
        exists|p: int|
            0 <= p < ds.len() && #[trigger] ds[p] == distinct_listed(ds)[i] && forall|q: int|
                0 <= q < p ==> (#[trigger] ds[q]).0 != distinct_listed(ds)[i].0,
    decreases ds.len(),
{
    let init = ds.drop_last();
    let kept = distinct_listed(init);
    if i < kept.len() {
        lemma_first_entry(init, i);
        let p = choose|p: int|
            0 <= p < init.len() && #[trigger] init[p] == kept[i] && forall|q: int|
                0 <= q < p ==> (#[trigger] init[q]).0 != kept[i].0;
        assert(ds[p] == distinct_listed(ds)[i]);
        assert forall|q: int| 0 <= q < p implies (#[trigger] ds[q]).0 != distinct_listed(ds)[i].0 by {
            assert(init[q] == ds[q]);
        }
    } else {
        let p = ds.len() - 1;
        assert(ds[p] == distinct_listed(ds)[i]);
        assert forall|q: int| 0 <= q < p implies (#[trigger] ds[q]).0 != ds[p].0 by {
            assert(init[q] == ds[q]);
            lemma_listed_holds(init, q);
        }
    }
}

proof fn lemma_listed_holds(ds: Seq<(Seq<char>, bool)>, q: int)
    requires
        0 <= q < ds.len(),
    ensures
        said(distinct_listed(ds)).contains(ds[q].0),
    decreases ds.len(),
{
    let init = ds.drop_last();
    let kept = distinct_listed(init);
    let all = distinct_listed(ds);
    if q < init.len() {
        lemma_listed_holds(init, q);
        let j = said(kept).index_of(init[q].0);
        assert(said(all)[j] == ds[q].0);
    } else if said(kept).contains(ds.last().0) {
    } else {
        assert(said(all)[kept.len() as int] == ds[q].0);
    }
}

} // verus!
