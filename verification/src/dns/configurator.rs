//! What a DNS backend tells of itself.

use vstd::prelude::*;

use crate::addr::Ipv4Addr;

verus! {

/// A backend that hands `.ray` to our resolver. Whatever it writes or asks of the system is
/// its own; this is what the daemon reads from it.
pub trait DnsConfigurator {
    /// What the backend is called.
    fn name(&self) -> &'static str;

    /// The upstream servers captured from the system before the backend took it over. None
    /// by default: a backend that routes only `.ray` captures nothing.
    fn captured_upstreams(&self) -> (r: Vec<Ipv4Addr>)
        default_ensures
            r@ == Seq::<Ipv4Addr>::empty(),
    {
        Vec::new()
    }

    /// The resolvers listed after ours, so the host still resolves names if ours stops
    /// answering. None by default: such a backend writes no file.
    fn fallback_upstreams(&self) -> (r: Vec<Ipv4Addr>)
        default_ensures
            r@ == Seq::<Ipv4Addr>::empty(),
    {
        Vec::new()
    }

    /// The other mesh's resolver, when the backend shares `resolv.conf` with one. None by
    /// default.
    fn shared_resolver(&self) -> (r: Option<Ipv4Addr>)
        default_ensures
            r is None,
    {
        None
    }
}

/// The same servers once more.
pub fn copy_servers(v: &Vec<Ipv4Addr>) -> (r: Vec<Ipv4Addr>)
    ensures
        r@ == v@,
{
    let mut out: Vec<Ipv4Addr> = Vec::new();
    let mut i: usize = 0;
    while i < v.len()
        invariant
            i <= v@.len(),
            out@ == v@.take(i as int),
        decreases v@.len() - i,
    {
        out.push(v[i]);
        assert(v@.take(i + 1) =~= v@.take(i as int).push(v@[i as int]));
        i = i + 1;
    }
    assert(v@.take(i as int) =~= v@);
    out
}

} // verus!
