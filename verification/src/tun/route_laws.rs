//! What the routes, the link and the scripts come to.

use vstd::prelude::*;

use crate::command::CommandOutcome;
use crate::digits::decimal;
use crate::platform::Platform;
use crate::text::{ends_with, starts_with, texts};
use crate::tun::routes::{
    default_route_after, held_after, is_split_step, link_outcome, loopback_args, net_args, opt_texts,
    peer_range_args, route_step_after, split_default_deletes, wants, DefaultRouteStep, ExitFamilies,
    RouteStep, SplitDefaultStep,
};
use crate::tun::windows::{
    link_args, query_script, quoted, remove_script, replace_script, RouteInstall,
};

verus! {

/// A tunnel takes the halves of exactly the families that it carries, both halves of each; one
/// that makes no claim takes all four, and one that carries nothing takes none.
pub proof fn a_tunnel_takes_both_halves_of_what_it_carries(carries: ExitFamilies)
    ensures
        wants(carries, 0) == wants(carries, 1),
        wants(carries, 2) == wants(carries, 3),
        wants(carries, 0) <==> carries == ExitFamilies::Dual || carries == ExitFamilies::V4
            || carries == ExitFamilies::Unknown,
        wants(carries, 2) <==> carries == ExitFamilies::Dual || carries == ExitFamilies::V6
            || carries == ExitFamilies::Unknown,
{
}

/// The four halves, spelled out: each is deleted whatever the tunnel carries, and added back only
/// where it carries the family.
pub proof fn the_four_halves_are_these(
    plan: Seq<SplitDefaultStep>,
    carries: ExitFamilies,
    tun: Seq<char>,
)
    requires
        plan.len() == 4,
        forall|i: int| 0 <= i < 4 ==> is_split_step(#[trigger] plan[i], carries, tun, i),
    ensures
        texts(plan[0].delete@) == net_args("delete"@, "-inet"@, "0.0.0.0/1"@, tun),
        texts(plan[1].delete@) == net_args("delete"@, "-inet"@, "128.0.0.0/1"@, tun),
        texts(plan[2].delete@) == net_args("delete"@, "-inet6"@, "::/1"@, tun),
        texts(plan[3].delete@) == net_args("delete"@, "-inet6"@, "8000::/1"@, tun),
        plan[0].add is Some <==> carries == ExitFamilies::Dual || carries == ExitFamilies::V4
            || carries == ExitFamilies::Unknown,
        plan[2].add is Some <==> carries == ExitFamilies::Dual || carries == ExitFamilies::V6
            || carries == ExitFamilies::Unknown,
        plan[0].add is Some ==> opt_texts(plan[0].add) == Some(
            net_args("add"@, "-inet"@, "0.0.0.0/1"@, tun),
        ) && opt_texts(plan[1].add) == Some(net_args("add"@, "-inet"@, "128.0.0.0/1"@, tun)),
        plan[2].add is Some ==> opt_texts(plan[2].add) == Some(
            net_args("add"@, "-inet6"@, "::/1"@, tun),
        ) && opt_texts(plan[3].add) == Some(net_args("add"@, "-inet6"@, "8000::/1"@, tun)),
        plan[0].add is None ==> plan[1].add is None,
        plan[2].add is None ==> plan[3].add is None,
        split_default_deletes(tun).len() == 4,
{
    assert(is_split_step(plan[0], carries, tun, 0));
    assert(is_split_step(plan[1], carries, tun, 1));
    assert(is_split_step(plan[2], carries, tun, 2));
    assert(is_split_step(plan[3], carries, tun, 3));
}

/// To delete a route and to add it takes the same arguments but for the verb, on every platform;
/// they name the net, and end in the interface. OpenBSD takes no `-n` and spells the interface its
/// own way.
pub proof fn a_delete_and_an_add_differ_in_the_verb(
    p: Platform,
    family: Seq<char>,
    net: Seq<char>,
    tun: Seq<char>,
    addr: Seq<char>,
    verb: Seq<char>,
)
    ensures
        net_args(verb, family, net, tun) == seq!["-n"@, verb, family, "-net"@, net, "-interface"@, tun],
        p == Platform::OpenBsd ==> peer_range_args(p, verb, tun) == seq![
            verb,
            "-inet6"@,
            "-net"@,
            "200::/7"@,
            "-iface"@,
            tun,
        ],
        p != Platform::OpenBsd ==> peer_range_args(p, verb, tun) == net_args(
            verb,
            "-inet6"@,
            "200::/7"@,
            tun,
        ),
        loopback_args(verb, addr) == seq![
            "-n"@,
            verb,
            "-inet6"@,
            "-host"@,
            addr,
            "-interface"@,
            "lo0"@,
        ],
{
}

/// A tunnel is put in place half by half: a delete leads to the add of the same half exactly where
/// the plan has one, however the delete went; an add that fails ends the run at its half, and
/// after the fourth half the tunnel stands.
pub proof fn a_tunnel_is_put_in_place_half_by_half(plan: Seq<SplitDefaultStep>, i: usize, ok: bool)
    requires
        plan.len() == 4,
        i < 4,
    ensures
        ({
            let next = if i < 3 {
                DefaultRouteStep::Delete((i + 1) as usize)
            } else {
                DefaultRouteStep::Done
            };
            &&& default_route_after(plan, DefaultRouteStep::Delete(i), ok) == (if plan[i as int].add is Some {
                DefaultRouteStep::Add(i)
            } else {
                next
            })
            &&& default_route_after(plan, DefaultRouteStep::Add(i), true) == next
            &&& default_route_after(plan, DefaultRouteStep::Add(i), false)
                == DefaultRouteStep::Failed(i)
            &&& default_route_after(plan, DefaultRouteStep::Done, ok) == DefaultRouteStep::Done
            &&& default_route_after(plan, DefaultRouteStep::Failed(i), ok)
                == DefaultRouteStep::Failed(i)
        }),
{
}

/// One route is put in place by a delete and an add, in that order; only the add decides, and a
/// delete that found nothing leaves the table as it was.
pub proof fn a_route_is_put_in_place_by_a_delete_and_an_add(deleted: bool, held: nat)
    ensures
        route_step_after(RouteStep::Delete, deleted) == RouteStep::Add,
        route_step_after(RouteStep::Add, true) == RouteStep::Done,
        route_step_after(RouteStep::Add, false) == RouteStep::Failed,
        held_after(RouteStep::Delete, true, held) == 0,
        held_after(RouteStep::Delete, false, held) == held,
        held_after(RouteStep::Add, true, held) == held + 1,
        held_after(RouteStep::Add, false, held) == held,
{
}

/// Routing on Windows goes on to the next prefix after each success and ends after the last; a
/// failure removes what is in place, one by one from the first, and nothing is installed after it.
pub proof fn prefixes_are_routed_one_by_one(
    i: usize,
    at: usize,
    installed: usize,
    count: usize,
    ok: bool,
)
    requires
        i < count,
        at < installed <= count,
    ensures
        crate::tun::windows::route_step_after(RouteInstall::Install(i), true, count) == (if i + 1
            < count {
            RouteInstall::Install((i + 1) as usize)
        } else {
            RouteInstall::Done
        }),
        crate::tun::windows::route_step_after(RouteInstall::Install(i), false, count) == (if i == 0 {
            RouteInstall::Failed
        } else {
            RouteInstall::RollBack { at: 0, installed: i }
        }),
        crate::tun::windows::route_step_after(RouteInstall::RollBack { at, installed }, ok, count)
            == (if at + 1 < installed {
            RouteInstall::RollBack { at: (at + 1) as usize, installed }
        } else {
            RouteInstall::Failed
        }),
{
}

/// A link has the state that was asked for exactly where its one command succeeded; a platform
/// without a link to change has nothing to fail.
pub proof fn a_link_changes_exactly_where_its_command_succeeds(
    p: Platform,
    up: bool,
    outcome: CommandOutcome,
)
    ensures
        link_outcome(p, up, outcome) is None <==> outcome is Success || p == Platform::Android || p
            == Platform::Other,
{
}

/// The adapter is enabled to bring it up and disabled to bring it down, under its own name.
pub proof fn the_adapter_is_enabled_or_disabled_under_its_name(
    a: Seq<String>,
    tun: Seq<char>,
    up: bool,
)
    requires
        link_args(a, tun, up),
    ensures
        a.len() == 5,
        a[3]@ == "name="@ + tun,
        up ==> a[4]@ == "admin="@ + "enabled"@,
        !up ==> a[4]@ == "admin="@ + "disabled"@,
        a[0]@ == "interface"@ && a[1]@ == "set"@ && a[2]@ == "interface"@,
{
    assert(texts(a).len() == a.len());
    assert(texts(a)[0] == a[0]@);
    assert(texts(a)[1] == a[1]@);
    assert(texts(a)[2] == a[2]@);
    assert(texts(a)[3] == a[3]@);
    assert(texts(a)[4] == a[4]@);
}

/// A route is removed by its prefix and its interface, and replaced by removing it and adding it
/// with the same two and the next hop; a route that is not there is no error to the removal, and
/// any error is one to the addition.
pub proof fn a_route_is_replaced_under_its_prefix_and_interface(
    prefix: Seq<char>,
    index: u32,
    hop: Seq<char>,
)
    ensures
        starts_with(remove_script(prefix, index), "Remove-NetRoute -DestinationPrefix '"@ + prefix),
        ends_with(
            remove_script(prefix, index),
            "' -InterfaceIndex "@ + decimal(index as nat)
                + " -Confirm:$false -ErrorAction SilentlyContinue"@,
        ),
        starts_with(
            replace_script(prefix, index, hop),
            remove_script(prefix, index) + "; New-NetRoute -DestinationPrefix '"@ + prefix
                + "' -InterfaceIndex "@ + decimal(index as nat),
        ),
        ends_with(
            replace_script(prefix, index, hop),
            " -NextHop '"@ + hop + "' -PolicyStore ActiveStore -ErrorAction Stop"@,
        ),
{
    let r = remove_script(prefix, index);
    let head = "Remove-NetRoute -DestinationPrefix '"@ + prefix;
    let tail = "' -InterfaceIndex "@ + decimal(index as nat)
        + " -Confirm:$false -ErrorAction SilentlyContinue"@;
    assert(r.take(head.len() as int) =~= head);
    assert(r.skip(r.len() - tail.len()) =~= tail);
    let p = replace_script(prefix, index, hop);
    let first = r + "; New-NetRoute -DestinationPrefix '"@ + prefix + "' -InterfaceIndex "@
        + decimal(index as nat);
    let last = " -NextHop '"@ + hop + "' -PolicyStore ActiveStore -ErrorAction Stop"@;
    assert(p.take(first.len() as int) =~= first);
    assert(p.skip(p.len() - last.len()) =~= last);
}

/// Quoting doubles apostrophes and changes nothing else.
pub proof fn quoting_doubles_apostrophes(s: Seq<char>, c: char)
    ensures
        c != '\'' ==> quoted(s.push(c)) == quoted(s).push(c),
        quoted(s.push('\'')) == quoted(s).push('\'').push('\''),
        quoted(seq![]).len() == 0,
        query_script(s) == "@(Get-NetAdapter | Where-Object { $_.Name -eq '"@ + quoted(s)
            + "' } | Select-Object -ExpandProperty ifIndex)"@,
{
    assert(s.push(c).drop_last() =~= s);
    assert(s.push('\'').drop_last() =~= s);
    assert(quoted(s) + seq!['\'', '\''] =~= quoted(s).push('\'').push('\''));
}

} // verus!
