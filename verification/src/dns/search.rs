//! Search domains: the suffixes a resolver appends to a bare name before giving up on it.

use vstd::prelude::*;

use crate::dns::DNS_DOMAIN;
use crate::text::{chars_of, ends_with, join, text_ends_with, text_eq, texts};
use smol_str::SmolStr;

verus! {

/// `smol_str::SmolStr`, an immutable string.
#[verifier::external_type_specification]
#[verifier::external_body]
pub struct ExSmolStr(SmolStr);

/// The characters a `SmolStr` holds.
pub uninterp spec fn smol_chars(s: SmolStr) -> Seq<char>;

/// `SmolStr::as_str` gives the characters that the string holds.
pub assume_specification[ SmolStr::as_str ](s: &SmolStr) -> (r: &str)
    ensures
        r@ == smol_chars(*s),
;

/// `SmolStr::new` makes a string that holds the characters of `text`.
#[verifier::external_body]
fn smol_new(text: &str) -> (r: SmolStr)
    ensures
        smol_chars(r) == text@,
{
    SmolStr::new(text)
}

/// `SmolStr::new_static` makes a string that holds the characters of `text`.
pub assume_specification[ SmolStr::new_static ](text: &'static str) -> (r: SmolStr)
    ensures
        smol_chars(r) == text@,
;

/// A clone of a `SmolStr` holds the same characters.
pub assume_specification[ <SmolStr as Clone>::clone ](s: &SmolStr) -> (r: SmolStr)
    ensures
        smol_chars(r) == smol_chars(*s),
;

/// A search domain: `homelab.ray`, `ray`, or one the host already had.
///
/// A type of its own because a network name and a search domain are both text, and feeding
/// one back in for the other would apply the suffix twice. The constructors are the only
/// way to make one, and they keep where it came from: one that the host had is the host's,
/// even when it ends in our domain. Two domains are equal when their texts are.
#[derive(Debug)]
pub struct SearchDomain {
    text: SmolStr,
    host: bool,
}

impl View for SearchDomain {
    type V = Seq<char>;

    closed spec fn view(&self) -> Seq<char> {
        smol_chars(self.text)
    }
}

impl Clone for SearchDomain {
    fn clone(&self) -> (r: Self)
        ensures
            r@ == self@,
            r.of_host() == self.of_host(),
    {
        SearchDomain { text: self.text.clone(), host: self.host }
    }
}

impl PartialEq for SearchDomain {
    fn eq(&self, other: &Self) -> (r: bool) {
        text_eq(self.as_str(), other.as_str())
    }
}

impl vstd::std_specs::cmp::PartialEqSpecImpl for SearchDomain {
    open spec fn obeys_eq_spec() -> bool {
        true
    }

    open spec fn eq_spec(&self, other: &Self) -> bool {
        self@ == other@
    }
}

impl Eq for SearchDomain {

}

/// The texts of a list of search domains.
pub open spec fn names(v: Seq<SearchDomain>) -> Seq<Seq<char>> {
    Seq::new(v.len(), |i: int| v[i]@)
}

/// The texts of a list of search domains, and which of them the host had.
pub open spec fn listed(v: Seq<SearchDomain>) -> Seq<(Seq<char>, bool)> {
    Seq::new(v.len(), |i: int| (v[i]@, v[i].of_host()))
}

/// `.ray`: how every mesh name ends.
pub open spec fn dot_domain() -> Seq<char> {
    seq!['.'] + DNS_DOMAIN@
}

/// The search domain of the network `n`.
pub open spec fn network_domain(n: Seq<char>) -> Seq<char> {
    n + dot_domain()
}

/// Whether a search domain is the mesh's rather than the host's: `ray` or anything under
/// it.
pub open spec fn ours(d: Seq<char>) -> bool {
    d == DNS_DOMAIN@ || ends_with(d, dot_domain())
}

/// The network a search domain names: what stands before `.ray`, if that is one label.
pub open spec fn network_of(d: Seq<char>) -> Option<Seq<char>> {
    let n = d.take(d.len() - dot_domain().len());
    if ends_with(d, dot_domain()) && n.len() > 0 && !n.contains('.') {
        Some(n)
    } else {
        None
    }
}

fn dot_domain_text() -> (r: String)
    ensures
        r@ == dot_domain(),
{
    let mut s = String::new();
    s.push('.');
    s.push_str(DNS_DOMAIN);
    assert(s@ =~= dot_domain());
    s
}

impl SearchDomain {
    /// Whether the host already had this domain.
    pub closed spec fn of_host(&self) -> bool {
        self.host
    }

    /// `<network>.ray`: what makes a bare `box` resolve inside one network.
    pub fn for_network(network: &str) -> (r: Self)
        ensures
            r@ == network_domain(network@),
            !r.of_host(),
    {
        let mut s = String::new();
        s.push_str(network);
        s.push_str(dot_domain_text().as_str());
        assert(s@ =~= network_domain(network@));
        SearchDomain { text: smol_new(s.as_str()), host: false }
    }

    /// `ray`: the catch-all every node carries, so `box.homelab` resolves too.
    pub fn root() -> (r: Self)
        ensures
            r@ == DNS_DOMAIN@,
            !r.of_host(),
    {
        SearchDomain { text: SmolStr::new_static(DNS_DOMAIN), host: false }
    }

    /// One the host already had, read back from its own resolver configuration. Unvalidated
    /// on purpose: it is the host's, and is only carried along.
    pub fn from_host(domain: &str) -> (r: Self)
        ensures
            r@ == domain@,
            r.of_host(),
    {
        SearchDomain { text: smol_new(domain), host: true }
    }

    pub fn as_str(&self) -> (r: &str)
        ensures
            r@ == self@,
    {
        self.text.as_str()
    }

    /// Ours to manage rather than the host's.
    ///
    /// It matters when reading back a file this daemon wrote: the networks its `search` line
    /// named must not stay in the list as if they were the host's.
    pub fn is_ours(&self) -> (r: bool)
        ensures
            r == ours(self@),
    {
        text_eq(self.as_str(), DNS_DOMAIN) || text_ends_with(
            self.as_str(),
            dot_domain_text().as_str(),
        )
    }

    /// The bare network name this was built from, for a `<network>.ray`; nothing for the
    /// `ray` root, and for anything captured from the host, which names no network of ours
    /// even when it ends in our domain.
    pub fn network_name(&self) -> (r: Option<&str>)
        ensures
            r is Some <==> !self.of_host() && network_of(self@) is Some,
            r is Some ==> r->0@ == network_of(self@)->0,
            r is Some ==> !self.of_host() && self@ == r->0@ + ".ray"@ && r->0@.len() > 0
                && !r->0@.contains('.'),
            self.of_host() ==> r is None,
    {
        proof {
            reveal_strlit("ray");
            reveal_strlit(".ray");
            assert(dot_domain() =~= ".ray"@);
        }
        if self.host {
            return None;
        }
        let suffix = dot_domain_text();
        if !text_ends_with(self.as_str(), suffix.as_str()) {
            return None;
        }
        let v: Vec<char> = chars_of(self.as_str());
        let end: usize = v.len() - chars_of(suffix.as_str()).len();
        if end == 0 {
            return None;
        }
        let mut i: usize = 0;
        while i < end
            invariant
                i <= end <= v@.len(),
                v@ == self@,
                end == self@.len() - dot_domain().len(),
                forall|j: int| 0 <= j < i ==> v@[j] != '.',
            decreases end - i,
        {
            if v[i] == '.' {
                assert(self@.take(end as int)[i as int] == '.');
                return None;
            }
            i = i + 1;
        }
        let name = self.as_str().substring_char(0, end);
        assert(name@ =~= self@.take(end as int));
        assert(self@ =~= self@.take(end as int) + self@.skip(end as int));
        Some(name)
    }
}

/// The search domains that make bare hostnames resolve: `<network>.ray` for each joined
/// network, then `ray`, so a bare `<host>` is tried as `<host>.<network>.ray` and
/// `<host>.ray`. Bare network names are deliberately never among them: a network called
/// `dev` would otherwise capture every `*.dev` lookup.
pub fn search_domains_for(network_names: &[String]) -> (r: Vec<SearchDomain>)
    ensures
        names(r@) == texts(network_names@).map_values(|n: Seq<char>| network_domain(n)).push(
            DNS_DOMAIN@,
        ),
        forall|i: int| 0 <= i < r@.len() ==> ours((#[trigger] r@[i])@) && !r@[i].of_host(),
        r@.len() == network_names@.len() + 1,
        r@.last()@ == "ray"@,
        forall|i: int|
            0 <= i < network_names@.len() ==> (#[trigger] r@[i])@ == network_names@[i]@ + ".ray"@,
{
    proof {
        reveal_strlit("ray");
        reveal_strlit(".ray");
        assert(dot_domain() =~= ".ray"@);
    }
    let mut search: Vec<SearchDomain> = Vec::new();
    let ghost all = texts(network_names@).map_values(|n: Seq<char>| network_domain(n));
    let mut i: usize = 0;
    while i < network_names.len()
        invariant
            i <= network_names@.len(),
            all == texts(network_names@).map_values(|n: Seq<char>| network_domain(n)),
            names(search@) == all.take(i as int),
            forall|j: int| 0 <= j < search@.len() ==> !(#[trigger] search@[j]).of_host(),
        decreases network_names@.len() - i,
    {
        let ghost before = search@;
        search.push(SearchDomain::for_network(network_names[i].as_str()));
        assert(names(search@) =~= names(before).push(all[i as int]));
        assert(all.take(i + 1) =~= all.take(i as int).push(all[i as int]));
        i = i + 1;
    }
    let ghost before = search@;
    search.push(SearchDomain::root());
    assert(names(search@) =~= names(before).push(DNS_DOMAIN@));
    assert(all.take(i as int) =~= all);
    assert forall|j: int| 0 <= j < search@.len() implies ours((#[trigger] search@[j])@) by {
        assert(names(search@)[j] == search@[j]@);
        if j < network_names@.len() {
            let n = texts(network_names@)[j];
            assert(search@[j]@ == network_domain(n));
            assert(network_domain(n).skip(n.len() as int) =~= dot_domain());
        }
    }
    assert(names(search@).len() == search@.len());
    assert(names(search@)[search@.len() - 1] == search@.last()@);
    assert forall|j: int| 0 <= j < network_names@.len() implies (#[trigger] search@[j])@
        == network_names@[j]@ + ".ray"@ by {
        assert(names(search@)[j] == search@[j]@);
        assert(texts(network_names@)[j] == network_names@[j]@);
    }
    search
}

/// A list the way `resolv.conf` and `resolvconf` want it: separated by spaces.
pub fn join_domains(domains: &[SearchDomain]) -> (r: String)
    ensures
        r@ == join(names(domains@), seq![' ']),
{
    let mut out = String::new();
    let mut i: usize = 0;
    while i < domains.len()
        invariant
            i <= domains@.len(),
            out@ == join(names(domains@).take(i as int), seq![' ']),
        decreases domains@.len() - i,
    {
        let ghost before = out@;
        if i > 0 {
            out.push(' ');
        }
        out.push_str(domains[i].as_str());
        proof {
            let next = names(domains@).take(i + 1);
            assert(next.drop_last() =~= names(domains@).take(i as int));
            assert(next.last() == domains@[i as int]@);
            if i > 0 {
                assert(out@ =~= before + seq![' '] + next.last());
            } else {
                assert(out@ =~= next.last());
            }
        }
        i = i + 1;
    }
    assert(names(domains@).take(i as int) =~= names(domains@));
    out
}

} // verus!
