//! The configurator for Windows.

use vstd::prelude::*;

use crate::addr::{read_v4, Ipv4Addr};
use crate::dns::configurator::{copy_servers, DnsConfigurator};
use crate::text::texts;
use crate::tun::windows::{ps_quote, quoted, quoted_name_is_one_literal, read_literal};

verus! {

/// The configurator for Windows: a policy table routes `.ray`, the adapter keeps the host's
/// servers.
pub struct WindowsDns {
    /// The adapter's name.
    pub interface_alias: String,
    /// The servers the host used before.
    pub upstreams: Vec<Ipv4Addr>,
}

impl DnsConfigurator for WindowsDns {
    fn name(&self) -> (r: &'static str)
        ensures
            r@ == "windows-powershell-dns"@,
    {
        "windows-powershell-dns"
    }

    fn captured_upstreams(&self) -> (r: Vec<Ipv4Addr>)
        ensures
            r@ == self.upstreams@,
    {
        copy_servers(&self.upstreams)
    }
}

/// The servers an adapter has, as a query reports them: none, one by itself, or a list.
pub enum ServerValues {
    Nothing,
    One(String),
    Many(Vec<String>),
}

/// Those of the texts that are IPv4 addresses, in order.
pub open spec fn addresses(ts: Seq<Seq<char>>) -> Seq<Ipv4Addr>
    decreases ts.len(),
{
    if ts.len() == 0 {
        seq![]
    } else {
        match read_v4(ts.last()) {
            Some(ip) => addresses(ts.drop_last()).push(ip),
            None => addresses(ts.drop_last()),
        }
    }
}

/// The texts that a query reports.
pub open spec fn reported(values: ServerValues) -> Seq<Seq<char>> {
    match values {
        ServerValues::Nothing => seq![],
        ServerValues::One(text) => seq![text@],
        ServerValues::Many(list) => texts(list@),
    }
}

fn addresses_of(list: &Vec<String>) -> (r: Vec<Ipv4Addr>)
    ensures
        r@ == addresses(texts(list@)),
{
    let mut out: Vec<Ipv4Addr> = Vec::new();
    let mut i: usize = 0;
    while i < list.len()
        invariant
            i <= list@.len(),
            out@ == addresses(texts(list@).take(i as int)),
        decreases list@.len() - i,
    {
        proof {
            let next = texts(list@).take(i + 1);
            assert(next.drop_last() =~= texts(list@).take(i as int));
            assert(next.last() == list@[i as int]@);
        }
        match Ipv4Addr::parse(list[i].as_str()) {
            Some(ip) => {
                out.push(ip);
            },
            None => {},
        }
        i = i + 1;
    }
    assert(texts(list@).take(i as int) =~= texts(list@));
    out
}

/// The servers that a query reports; what is no IPv4 address is passed over.
pub fn parse_dns_server_values(values: &ServerValues) -> (r: Vec<Ipv4Addr>)
    ensures
        r@ == addresses(reported(*values)),
{
    match values {
        ServerValues::Nothing => Vec::new(),
        ServerValues::One(text) => {
            let mut list: Vec<String> = Vec::new();
            list.push(text.as_str().to_owned());
            assert(texts(list@) =~= seq![text@]);
            addresses_of(&list)
        },
        ServerValues::Many(list) => addresses_of(list),
    }
}

/// What the script that resets an adapter's servers begins with.
pub const RESET_HEAD: &'static str = "Set-DnsClientServerAddress -InterfaceAlias '";

/// The script that has an adapter go back to the servers it would have by itself.
pub open spec fn reset_script(alias: Seq<char>) -> Seq<char> {
    RESET_HEAD@ + quoted(alias) + "' -ResetServerAddresses"@
}

/// The script that has an adapter go back to the servers it would have by itself, rather
/// than to a copy of the host's.
pub fn reset_wintun_dns_script(alias: &str) -> (r: String)
    ensures
        r@ == reset_script(alias@),
{
    let mut out = String::new();
    out.push_str(RESET_HEAD);
    out.push_str(ps_quote(alias).as_str());
    out.push_str("' -ResetServerAddresses");
    assert(out@ =~= reset_script(alias@));
    out
}

/// The adapter's name stands in the script as one literal, whatever apostrophes it holds, so
/// the script resets that adapter and no other.
pub proof fn reset_names_the_whole_adapter(alias: Seq<char>)
    ensures
        reset_script(alias).take(RESET_HEAD@.len() as int) == RESET_HEAD@,
        read_literal(reset_script(alias).skip(RESET_HEAD@.len() as int)) == Some(
            (alias, quoted(alias).len() + 1),
        ),
{
    let s = reset_script(alias);
    let n = RESET_HEAD@.len() as int;
    reveal_strlit("' -ResetServerAddresses");
    let rest = "' -ResetServerAddresses"@.skip(1);
    assert(s.take(n) =~= RESET_HEAD@);
    assert(s.skip(n) =~= quoted(alias) + seq!['\''] + rest);
    quoted_name_is_one_literal(alias, rest);
}

} // verus!
