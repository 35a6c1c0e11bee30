//! The routes and link changes that put traffic into the TUN.

use vstd::prelude::*;

use crate::addr::Ipv6Addr;
use crate::command::{failure, CommandFailure, CommandOutcome};
use crate::platform::Platform;
use crate::text::{join, join_texts, opt_text, text_trim, texts, trim};
use crate::tun::windows::{
    link_args, remove_script, windows_link_args, windows_remove_route_script, PEER_RANGE,
};

verus! {

/// Which address families an exit gateway says it can carry.
#[derive(Clone, Copy, Debug, PartialEq, Eq, Structural)]
pub enum ExitFamilies {
    Dual,
    V6,
    V4,
    Neither,
    /// No claim was made.
    Unknown,
}

impl ExitFamilies {
    /// Whether IPv4 is carried.
    pub fn carries_v4(&self) -> (r: bool)
        ensures
            r == (*self == ExitFamilies::Dual || *self == ExitFamilies::V4),
    {
        match self {
            ExitFamilies::Dual => true,
            ExitFamilies::V4 => true,
            _ => false,
        }
    }

    /// Whether IPv6 is carried.
    pub fn carries_v6(&self) -> (r: bool)
        ensures
            r == (*self == ExitFamilies::Dual || *self == ExitFamilies::V6),
    {
        match self {
            ExitFamilies::Dual => true,
            ExitFamilies::V6 => true,
            _ => false,
        }
    }

    /// Whether no claim was made.
    pub fn is_unknown(&self) -> (r: bool)
        ensures
            r == (*self == ExitFamilies::Unknown),
    {
        match self {
            ExitFamilies::Unknown => true,
            _ => false,
        }
    }
}

/// The half of the IPv4 or IPv6 address space with this index: two of each.
pub open spec fn half_space(i: int) -> (Seq<char>, Seq<char>) {
    if i == 0 {
        ("-inet"@, "0.0.0.0/1"@)
    } else if i == 1 {
        ("-inet"@, "128.0.0.0/1"@)
    } else if i == 2 {
        ("-inet6"@, "::/1"@)
    } else {
        ("-inet6"@, "8000::/1"@)
    }
}

/// Whether the half-space with this index is one of IPv4's.
pub open spec fn is_v4_half(i: int) -> bool {
    i < 2
}

/// Whether a tunnel that carries these families takes the half-space with this index. An
/// absent claim is read as both families, which is what it meant before claims were made.
pub open spec fn wants(carries: ExitFamilies, i: int) -> bool {
    match carries {
        ExitFamilies::Dual => true,
        ExitFamilies::Unknown => true,
        ExitFamilies::V4 => is_v4_half(i),
        ExitFamilies::V6 => !is_v4_half(i),
        ExitFamilies::Neither => false,
    }
}

/// The arguments of `route` that apply `verb` to a net through an interface.
pub open spec fn net_args(
    verb: Seq<char>,
    family: Seq<char>,
    net: Seq<char>,
    tun: Seq<char>,
) -> Seq<Seq<char>> {
    seq!["-n"@, verb, family, "-net"@, net, "-interface"@, tun]
}

/// What one half-space costs: always a delete, and an add only if the tunnel carries it.
pub struct SplitDefaultStep {
    pub delete: Vec<String>,
    pub add: Option<Vec<String>>,
}

/// The texts of an optional list.
pub open spec fn opt_texts(o: Option<Vec<String>>) -> Option<Seq<Seq<char>>> {
    match o {
        Some(v) => Some(texts(v@)),
        None => None,
    }
}

/// Whether a step is the one for the half-space with this index.
pub open spec fn is_split_step(
    s: SplitDefaultStep,
    carries: ExitFamilies,
    tun: Seq<char>,
    i: int,
) -> bool {
    let (family, net) = half_space(i);
    &&& texts(s.delete@) == net_args("delete"@, family, net, tun)
    &&& opt_texts(s.add) == (if wants(carries, i) {
        Some(net_args("add"@, family, net, tun))
    } else {
        None
    })
}

fn route_net_args(verb: &str, family: &str, net: &str, tun_name: &str) -> (r: Vec<String>)
    ensures
        texts(r@) == net_args(verb@, family@, net@, tun_name@),
{
    let mut v: Vec<String> = Vec::new();
    v.push("-n".to_owned());
    v.push(verb.to_owned());
    v.push(family.to_owned());
    v.push("-net".to_owned());
    v.push(net.to_owned());
    v.push("-interface".to_owned());
    v.push(tun_name.to_owned());
    assert(texts(v@) =~= net_args(verb@, family@, net@, tun_name@));
    v
}

fn split_step(family: &str, net: &str, wanted: bool, tun_name: &str) -> (r: SplitDefaultStep)
    ensures
        texts(r.delete@) == net_args("delete"@, family@, net@, tun_name@),
        opt_texts(r.add) == (if wanted {
            Some(net_args("add"@, family@, net@, tun_name@))
        } else {
            None
        }),
{
    SplitDefaultStep {
        delete: route_net_args("delete", family, net, tun_name),
        add: if wanted {
            Some(route_net_args("add", family, net, tun_name))
        } else {
            None
        },
    }
}

/// The `route` invocations that install a full tunnel as two half-space routes per family.
/// Each is more specific than a default route, so together they capture everything without
/// touching the system's default.
///
/// Every half-space is deleted whatever the tunnel carries, and only the carried ones are
/// added back: a tunnel that stopped carrying a family must not keep its routes.
pub fn split_default_plan(carries: ExitFamilies, tun_name: &str) -> (r: [SplitDefaultStep; 4])
    ensures
        forall|i: int| 0 <= i < 4 ==> is_split_step(#[trigger] r@[i], carries, tun_name@, i),
{
    let v4: bool = carries.carries_v4() || carries.is_unknown();
    let v6: bool = carries.carries_v6() || carries.is_unknown();
    let r: [SplitDefaultStep; 4] = [
        split_step("-inet", "0.0.0.0/1", v4, tun_name),
        split_step("-inet", "128.0.0.0/1", v4, tun_name),
        split_step("-inet6", "::/1", v6, tun_name),
        split_step("-inet6", "8000::/1", v6, tun_name),
    ];
    assert(is_split_step(r@[0], carries, tun_name@, 0));
    assert(is_split_step(r@[1], carries, tun_name@, 1));
    assert(is_split_step(r@[2], carries, tun_name@, 2));
    assert(is_split_step(r@[3], carries, tun_name@, 3));
    r
}

/// The texts of a list of argument lists.
pub open spec fn arg_lists(v: Seq<Vec<String>>) -> Seq<Seq<Seq<char>>> {
    Seq::new(v.len(), |i: int| texts(v[i]@))
}

/// The deletes that remove a full tunnel of either family.
pub open spec fn split_default_deletes(tun: Seq<char>) -> Seq<Seq<Seq<char>>> {
    Seq::new(4, |i: int| net_args("delete"@, half_space(i).0, half_space(i).1, tun))
}

/// The `route` invocations that remove a full tunnel. Always both families, whatever
/// installed it, so a daemon restarted into another mode still clears what was left behind.
pub fn unroute_default_via_tun(tun_name: &str) -> (r: Vec<Vec<String>>)
    ensures
        arg_lists(r@) == split_default_deletes(tun_name@),
{
    let mut out: Vec<Vec<String>> = Vec::new();
    out.push(route_net_args("delete", "-inet", "0.0.0.0/1", tun_name));
    out.push(route_net_args("delete", "-inet", "128.0.0.0/1", tun_name));
    out.push(route_net_args("delete", "-inet6", "::/1", tun_name));
    out.push(route_net_args("delete", "-inet6", "8000::/1", tun_name));
    assert(arg_lists(out@) =~= split_default_deletes(tun_name@));
    out
}

/// An install deletes exactly what a teardown deletes, whatever the tunnel carries, and
/// adds back only what it carries.
pub proof fn install_is_as_symmetric_as_teardown(
    plan: Seq<SplitDefaultStep>,
    carries: ExitFamilies,
    tun: Seq<char>,
)
    requires
        plan.len() == 4,
        forall|i: int| 0 <= i < 4 ==> is_split_step(#[trigger] plan[i], carries, tun, i),
    ensures
        forall|i: int|
            0 <= i < 4 ==> texts((#[trigger] plan[i]).delete@) == split_default_deletes(tun)[i],
        forall|i: int| 0 <= i < 4 ==> ((#[trigger] plan[i]).add is Some <==> wants(carries, i)),
        forall|i: int|
            0 <= i < 4 && (#[trigger] plan[i]).add is Some ==> texts(plan[i].add->0@) == net_args(
                "add"@,
                half_space(i).0,
                half_space(i).1,
                tun,
            ),
{
    assert forall|i: int| 0 <= i < 4 implies texts((#[trigger] plan[i]).delete@)
        == split_default_deletes(tun)[i] && (plan[i].add is Some <==> wants(carries, i)) && (
    plan[i].add is Some ==> texts(plan[i].add->0@) == net_args(
        "add"@,
        half_space(i).0,
        half_space(i).1,
        tun,
    )) by {
        assert(is_split_step(plan[i], carries, tun, i));
    }
}

/// A step of putting a full tunnel in place.
#[derive(Clone, Copy, Debug, PartialEq, Eq, Structural)]
pub enum DefaultRouteStep {
    /// Delete the routes of this half-space; whether there were any makes no difference.
    Delete(usize),
    /// Add the route of this half-space.
    Add(usize),
    /// The tunnel is in place.
    Done,
    /// The route of this half-space could not be added.
    Failed(usize),
}

/// The step after the half-space with this index.
pub open spec fn after_half(i: usize) -> DefaultRouteStep {
    if i < 3 {
        DefaultRouteStep::Delete((i + 1) as usize)
    } else {
        DefaultRouteStep::Done
    }
}

/// What follows a step of putting `plan` in place, which succeeded or not.
pub open spec fn default_route_after(
    plan: Seq<SplitDefaultStep>,
    step: DefaultRouteStep,
    ok: bool,
) -> DefaultRouteStep {
    match step {
        DefaultRouteStep::Delete(i) => if i < 4 && plan[i as int].add is Some {
            DefaultRouteStep::Add(i)
        } else {
            after_half(i)
        },
        DefaultRouteStep::Add(i) => if ok {
            after_half(i)
        } else {
            DefaultRouteStep::Failed(i)
        },
        DefaultRouteStep::Done => DefaultRouteStep::Done,
        DefaultRouteStep::Failed(i) => DefaultRouteStep::Failed(i),
    }
}

/// Goes on with putting a full tunnel in place, once a step succeeded or not. It begins with
/// the delete of the first half-space.
pub fn route_default_via_tun(
    plan: &[SplitDefaultStep; 4],
    step: DefaultRouteStep,
    ok: bool,
) -> (r: DefaultRouteStep)
    ensures
        r == default_route_after(plan@, step, ok),
{
    let done: usize = match step {
        DefaultRouteStep::Delete(i) => {
            if i < 4 && plan[i].add.is_some() {
                return DefaultRouteStep::Add(i);
            }
            i
        },
        DefaultRouteStep::Add(i) => {
            if !ok {
                return DefaultRouteStep::Failed(i);
            }
            i
        },
        _ => {
            return step;
        },
    };
    if done < 3 {
        DefaultRouteStep::Delete(done + 1)
    } else {
        DefaultRouteStep::Done
    }
}

/// The half-spaces routed into the tunnel after a step.
pub open spec fn halves_after(step: DefaultRouteStep, ok: bool, halves: Set<int>) -> Set<int> {
    match step {
        DefaultRouteStep::Delete(i) => halves.remove(i as int),
        DefaultRouteStep::Add(i) => if ok {
            halves.insert(i as int)
        } else {
            halves
        },
        _ => halves,
    }
}

/// Whether the half-spaces before `n` are routed exactly as the tunnel carries them.
pub open spec fn settled(halves: Set<int>, carries: ExitFamilies, n: int) -> bool {
    forall|j: int| 0 <= j < n ==> (#[trigger] halves.contains(j) <==> wants(carries, j))
}

/// Which half-spaces are routed when a step is reached, whatever was routed before.
pub open spec fn halves_at(
    step: DefaultRouteStep,
    halves: Set<int>,
    carries: ExitFamilies,
) -> bool {
    match step {
        DefaultRouteStep::Delete(i) => i < 4 && settled(halves, carries, i as int),
        DefaultRouteStep::Add(i) => i < 4 && settled(halves, carries, i as int) && wants(
            carries,
            i as int,
        ),
        DefaultRouteStep::Done => settled(halves, carries, 4),
        DefaultRouteStep::Failed(_) => true,
    }
}

/// Whatever was routed before, a tunnel that is put in place routes exactly the half-spaces
/// it carries: a narrowing tunnel drops the family it stopped carrying.
pub proof fn an_installed_tunnel_routes_exactly_what_it_carries(
    plan: Seq<SplitDefaultStep>,
    carries: ExitFamilies,
    tun: Seq<char>,
    step: DefaultRouteStep,
    ok: bool,
    halves: Set<int>,
)
    requires
        plan.len() == 4,
        forall|i: int| 0 <= i < 4 ==> is_split_step(#[trigger] plan[i], carries, tun, i),
        halves_at(step, halves, carries),
    ensures
        halves_at(default_route_after(plan, step, ok), halves_after(step, ok, halves), carries),
{
    let next = halves_after(step, ok, halves);
    match step {
        DefaultRouteStep::Delete(i) => {
            assert(is_split_step(plan[i as int], carries, tun, i as int));
            assert forall|j: int| 0 <= j < i implies (#[trigger] next.contains(j) <==> wants(
                carries,
                j,
            )) by {
                assert(halves.contains(j) <==> wants(carries, j));
            }
        },
        DefaultRouteStep::Add(i) => {
            assert forall|j: int| 0 <= j <= i && ok implies (#[trigger] next.contains(j) <==> wants(
                carries,
                j,
            )) by {
                assert(j < i ==> (halves.contains(j) <==> wants(carries, j)));
            }
        },
        _ => {},
    }
}

/// How the peer range, `200::/7`, is routed into the TUN.
pub enum PeerRange {
    /// A netlink route over the interface for the addresses that begin with the first
    /// `length` bits of `prefix`.
    Netlink { prefix: Ipv6Addr, length: u8 },
    /// Two `route` invocations: drop a stale entry, whose result does not matter, then add.
    Route { delete: Vec<String>, add: Vec<String> },
    /// The Windows route scripts.
    PowerShell,
    /// The platform routes the range itself.
    Nothing,
}

/// The arguments of `route` that apply `verb` to the peer range. OpenBSD spells the
/// interface flag its own way and takes no `-n`.
pub open spec fn peer_range_args(p: Platform, verb: Seq<char>, tun: Seq<char>) -> Seq<Seq<char>> {
    if p == Platform::OpenBsd {
        seq![verb, "-inet6"@, "-net"@, "200::/7"@, "-iface"@, tun]
    } else {
        net_args(verb, "-inet6"@, "200::/7"@, tun)
    }
}

fn peer_args(platform: Platform, verb: &str, tun_name: &str) -> (r: Vec<String>)
    ensures
        texts(r@) == peer_range_args(platform, verb@, tun_name@),
{
    if matches!(platform, Platform::OpenBsd) {
        let mut v: Vec<String> = Vec::new();
        v.push(verb.to_owned());
        v.push("-inet6".to_owned());
        v.push("-net".to_owned());
        v.push("200::/7".to_owned());
        v.push("-iface".to_owned());
        v.push(tun_name.to_owned());
        assert(texts(v@) =~= peer_range_args(platform, verb@, tun_name@));
        v
    } else {
        route_net_args(verb, "-inet6", "200::/7", tun_name)
    }
}

/// How the peer range is routed into the TUN on a platform. The range holds the mesh
/// resolver's address too, so nothing else needs a route of its own.
pub fn route_peer_range(platform: Platform, tun_name: &str) -> (r: PeerRange)
    ensures
        match platform {
            Platform::Linux => {
                &&& r is Netlink
                &&& r->prefix.segments@ == seq![0x200u16, 0, 0, 0, 0, 0, 0, 0]
                &&& r->length == 7
            },
            Platform::Windows => r is PowerShell,
            Platform::MacOs | Platform::FreeBsd | Platform::OpenBsd => {
                &&& r is Route
                &&& texts(r->delete@) == peer_range_args(platform, "delete"@, tun_name@)
                &&& texts(r->add@) == peer_range_args(platform, "add"@, tun_name@)
            },
            _ => r is Nothing,
        },
        r is Netlink <==> platform == Platform::Linux,
        r is PowerShell <==> platform == Platform::Windows,
        r is Nothing <==> platform == Platform::Android || platform == Platform::Other,
{
    match platform {
        Platform::Linux => {
            let segments: [u16; 8] = [0x200, 0, 0, 0, 0, 0, 0, 0];
            assert(segments@ =~= seq![0x200u16, 0, 0, 0, 0, 0, 0, 0]);
            PeerRange::Netlink { prefix: Ipv6Addr { segments }, length: 7 }
        },
        Platform::Windows => PeerRange::PowerShell,
        Platform::MacOs | Platform::FreeBsd | Platform::OpenBsd => PeerRange::Route {
            delete: peer_args(platform, "delete", tun_name),
            add: peer_args(platform, "add", tun_name),
        },
        _ => PeerRange::Nothing,
    }
}

/// The scripts that take the peer range out of the TUN again. Only Windows has routes that
/// outlive the link.
pub fn unroute_peer_range(platform: Platform, index: u32) -> (r: Vec<String>)
    ensures
        texts(r@) == (if platform == Platform::Windows {
            seq![remove_script(PEER_RANGE@, index)]
        } else {
            seq![]
        }),
        r@.len() > 0 <==> platform == Platform::Windows,
{
    let mut out: Vec<String> = Vec::new();
    if matches!(platform, Platform::Windows) {
        out.push(windows_remove_route_script(PEER_RANGE, index));
        assert(texts(out@) =~= seq![remove_script(PEER_RANGE@, index)]);
    } else {
        assert(texts(out@) =~= seq![]);
    }
    out
}

/// The arguments of `route` that apply `verb` to the host route of an own address over the
/// loopback interface.
pub open spec fn loopback_args(verb: Seq<char>, addr: Seq<char>) -> Seq<Seq<char>> {
    seq!["-n"@, verb, "-inet6"@, "-host"@, addr, "-interface"@, "lo0"@]
}

fn self_route_args(verb: &str, addr: &str) -> (r: Vec<String>)
    ensures
        texts(r@) == loopback_args(verb@, addr@),
{
    let mut v: Vec<String> = Vec::new();
    v.push("-n".to_owned());
    v.push(verb.to_owned());
    v.push("-inet6".to_owned());
    v.push("-host".to_owned());
    v.push(addr.to_owned());
    v.push("-interface".to_owned());
    v.push("lo0".to_owned());
    assert(texts(v@) =~= loopback_args(verb@, addr@));
    v
}

/// The `route` invocations, delete then add, that keep traffic to the node's own address
/// `addr` off the TUN, where it would be dropped for want of a peer. Only a point-to-point
/// `utun` needs them: elsewhere the system installs such a route itself.
pub fn route_self_loopback(platform: Platform, addr: &str) -> (r: Option<(Vec<String>, Vec<String>)>)
    ensures
        r is Some <==> (platform == Platform::MacOs || platform == Platform::FreeBsd),
        r matches Some(p) ==> texts(p.0@) == loopback_args("delete"@, addr@) && texts(p.1@)
            == loopback_args("add"@, addr@),
{
    match platform {
        Platform::MacOs | Platform::FreeBsd => Some(
            (self_route_args("delete", addr), self_route_args("add", addr)),
        ),
        _ => None,
    }
}

/// What is reported of a `route` invocation that ends with `status`.
pub open spec fn route_failure_text(args: Seq<Seq<char>>, status: Seq<char>) -> Seq<char> {
    "route "@ + join(args, seq![' ']) + " failed with "@ + status
}

/// What to report when a `route` invocation ends with `status`.
pub fn route_failure(args: &Vec<String>, status: &str) -> (r: String)
    ensures
        r@ == route_failure_text(texts(args@), status@),
{
    let mut out = String::new();
    out.push_str("route ");
    out.push_str(join_texts(args, " ").as_str());
    out.push_str(" failed with ");
    out.push_str(status);
    proof {
        reveal_strlit(" ");
        assert(" "@ =~= seq![' ']);
        assert(out@ =~= "route "@ + join(texts(args@), seq![' ']) + " failed with "@ + status@);
    }
    out
}

/// What to report when the host route of an own address could not be added.
pub fn self_route_failure(addr: &str, status: &str) -> (r: String)
    ensures
        r@ == "route add -inet6 -host "@ + addr@ + " via lo0 failed with "@ + status@,
{
    let mut out = String::new();
    out.push_str("route add -inet6 -host ");
    out.push_str(addr);
    out.push_str(" via lo0 failed with ");
    out.push_str(status);
    out
}

/// What came of adding a route with the arguments `args`: it is added exactly where `route`
/// could be run and reported success.
pub fn route_result(args: &Vec<String>, outcome: &CommandOutcome) -> (r: Result<(), CommandFailure>)
    ensures
        failure(r) == (match *outcome {
            CommandOutcome::Success => None,
            CommandOutcome::Exited(status) => Some(
                (route_failure_text(texts(args@), status@), None),
            ),
            CommandOutcome::NotRun(error) => Some(
                ("run route "@ + join(texts(args@), seq![' ']), Some(error@)),
            ),
        }),
        r is Ok <==> *outcome is Success,
{
    match outcome {
        CommandOutcome::Success => Ok(()),
        CommandOutcome::Exited(status) => Err(
            CommandFailure { message: route_failure(args, status.as_str()), cause: None },
        ),
        CommandOutcome::NotRun(error) => {
            let mut message = String::new();
            message.push_str("run route ");
            message.push_str(join_texts(args, " ").as_str());
            proof {
                reveal_strlit(" ");
                assert(" "@ =~= seq![' ']);
                assert(message@ =~= "run route "@ + join(texts(args@), seq![' ']));
            }
            Err(CommandFailure { message, cause: Some(error.as_str().to_owned()) })
        },
    }
}

/// What came of adding the host route of an own address.
pub fn self_route_result(addr: &str, outcome: &CommandOutcome) -> (r: Result<(), CommandFailure>)
    ensures
        failure(r) == (match *outcome {
            CommandOutcome::Success => None,
            CommandOutcome::Exited(status) => Some(
                ("route add -inet6 -host "@ + addr@ + " via lo0 failed with "@ + status@, None),
            ),
            CommandOutcome::NotRun(error) => Some(
                ("run route add (loopback self-route)"@, Some(error@)),
            ),
        }),
        r is Ok <==> *outcome is Success,
{
    match outcome {
        CommandOutcome::Success => Ok(()),
        CommandOutcome::Exited(status) => Err(
            CommandFailure { message: self_route_failure(addr, status.as_str()), cause: None },
        ),
        CommandOutcome::NotRun(error) => Err(
            CommandFailure {
                message: "run route add (loopback self-route)".to_owned(),
                cause: Some(error.as_str().to_owned()),
            },
        ),
    }
}

/// What to do next in putting one route in place of whatever stands for it.
#[derive(Clone, Copy, Debug, PartialEq, Eq, Structural)]
pub enum RouteStep {
    /// Drop a stale entry.
    Delete,
    /// Add the route.
    Add,
    /// The route stands.
    Done,
    /// The route could not be added.
    Failed,
}

/// The step after one that went well or not. A stale entry that could not be dropped is most
/// often one that was not there: only the add decides.
pub open spec fn route_step_after(step: RouteStep, ok: bool) -> RouteStep {
    match step {
        RouteStep::Delete => RouteStep::Add,
        RouteStep::Add => if ok {
            RouteStep::Done
        } else {
            RouteStep::Failed
        },
        RouteStep::Done => RouteStep::Done,
        RouteStep::Failed => RouteStep::Failed,
    }
}

/// Goes on with putting a route in place; it begins with [`RouteStep::Delete`].
pub fn next_route_step(step: RouteStep, ok: bool) -> (r: RouteStep)
    ensures
        r == route_step_after(step, ok),
{
    match step {
        RouteStep::Delete => RouteStep::Add,
        RouteStep::Add => if ok {
            RouteStep::Done
        } else {
            RouteStep::Failed
        },
        RouteStep::Done => RouteStep::Done,
        RouteStep::Failed => RouteStep::Failed,
    }
}

/// How often the table holds the route after a step, where it held it `held` times before.
pub open spec fn held_after(step: RouteStep, ok: bool, held: nat) -> nat {
    match step {
        RouteStep::Delete => if ok {
            0
        } else {
            held
        },
        RouteStep::Add => if ok {
            held + 1
        } else {
            held
        },
        _ => held,
    }
}

/// How `route` answers a step: there has to be an entry to delete one, and there must be none
/// to add one.
pub open spec fn route_answer(step: RouteStep, held: nat) -> bool {
    match step {
        RouteStep::Delete => held > 0,
        RouteStep::Add => held == 0,
        _ => false,
    }
}

/// The step reached, and how often the table then holds the route, after `n` steps that
/// `route` answers.
pub open spec fn route_run(step: RouteStep, held: nat, n: nat) -> (RouteStep, nat)
    decreases n,
{
    if n == 0 {
        (step, held)
    } else {
        let ok = route_answer(step, held);
        route_run(route_step_after(step, ok), held_after(step, ok, held), (n - 1) as nat)
    }
}

/// Whatever was routed before and whatever comes of the delete, a route that is reported as
/// standing stands once: an add succeeds only where there was none.
pub proof fn a_finished_route_stands_once(held: nat, deleted: bool, added: bool)
    requires
        added ==> held_after(RouteStep::Delete, deleted, held) == 0,
    ensures
        ({
            let second = route_step_after(RouteStep::Delete, deleted);
            let left = held_after(RouteStep::Delete, deleted, held);
            let last = route_step_after(second, added);
            &&& second == RouteStep::Add
            &&& last == (if added {
                RouteStep::Done
            } else {
                RouteStep::Failed
            })
            &&& last == RouteStep::Done ==> held_after(second, added, left) == 1
        }),
{
}

/// A route can be put in place any number of times: from a table that lacks it or holds it,
/// the run ends with the route standing once.
pub proof fn routing_again_is_routing_once(held: nat)
    ensures
        route_run(RouteStep::Delete, held, 2) == (RouteStep::Done, 1nat),
        ({
            let first = route_run(RouteStep::Delete, held, 2);
            route_run(RouteStep::Delete, first.1, 2) == first
        }),
{
    reveal_with_fuel(route_run, 3);
}

/// How the link is brought up or down.
pub enum LinkAction {
    /// Run `ifconfig` with these arguments.
    Ifconfig(Vec<String>),
    /// Set the link's flag over netlink.
    Netlink { up: bool },
    /// Run `netsh` with these arguments.
    Netsh([String; 5]),
    /// The platform has no link to change.
    Nothing,
}

/// What `ifconfig` calls the state.
pub open spec fn ifconfig_state(up: bool) -> Seq<char> {
    if up {
        "up"@
    } else {
        "down"@
    }
}

/// How the link is brought up or down on a platform.
pub fn set_link_state(platform: Platform, tun_name: &str, up: bool) -> (r: LinkAction)
    ensures
        match platform {
            Platform::MacOs | Platform::FreeBsd | Platform::OpenBsd => {
                &&& r is Ifconfig
                &&& texts(r->Ifconfig_0@) == seq![tun_name@, ifconfig_state(up)]
            },
            Platform::Linux => r is Netlink && r->up == up,
            Platform::Windows => r is Netsh && link_args(r->Netsh_0@, tun_name@, up),
            _ => r is Nothing,
        },
        r is Netlink <==> platform == Platform::Linux,
        r is Netsh <==> platform == Platform::Windows,
        r is Nothing <==> platform == Platform::Android || platform == Platform::Other,
{
    match platform {
        Platform::MacOs | Platform::FreeBsd | Platform::OpenBsd => {
            let mut v: Vec<String> = Vec::new();
            v.push(tun_name.to_owned());
            if up {
                v.push("up".to_owned());
            } else {
                v.push("down".to_owned());
            }
            assert(texts(v@) =~= seq![tun_name@, ifconfig_state(up)]);
            LinkAction::Ifconfig(v)
        },
        Platform::Linux => LinkAction::Netlink { up },
        Platform::Windows => LinkAction::Netsh(windows_link_args(tun_name, up)),
        _ => LinkAction::Nothing,
    }
}

/// What is reported where the command that changes the link fails.
pub open spec fn link_failure_text(p: Platform, up: bool, detail: Seq<char>) -> Option<Seq<char>> {
    match p {
        Platform::MacOs | Platform::FreeBsd | Platform::OpenBsd => Some(
            "ifconfig "@ + ifconfig_state(up) + " failed with "@ + detail,
        ),
        Platform::Windows => Some(
            "netsh interface "@ + (if up {
                "enabled"@
            } else {
                "disabled"@
            }) + " failed: "@ + trim(detail),
        ),
        _ => None,
    }
}

/// What came of changing the link: the message and the cause of a failure, or nothing where
/// the link has the state that was asked for.
pub open spec fn link_outcome(
    p: Platform,
    up: bool,
    outcome: CommandOutcome,
) -> Option<(Seq<char>, Option<Seq<char>>)> {
    match (p, outcome) {
        (Platform::Android, _) => None,
        (Platform::Other, _) => None,
        (_, CommandOutcome::Success) => None,
        (Platform::Linux, CommandOutcome::Exited(error)) => Some((error@, None)),
        (Platform::Linux, CommandOutcome::NotRun(error)) => Some((error@, None)),
        (_, CommandOutcome::Exited(detail)) => match link_failure_text(p, up, detail@) {
            Some(text) => Some((text, None)),
            None => None,
        },
        (Platform::Windows, CommandOutcome::NotRun(error)) => Some(
            ("run netsh interface set interface"@, Some(error@)),
        ),
        (_, CommandOutcome::NotRun(error)) => Some(("run ifconfig"@, Some(error@))),
    }
}

/// What to report when the command that changes the link fails, where it is a command: its
/// status, or what it printed.
pub fn link_failure(platform: Platform, up: bool, detail: &str) -> (r: Option<String>)
    ensures
        opt_text(r) == link_failure_text(platform, up, detail@),
{
    let mut out = String::new();
    match platform {
        Platform::MacOs | Platform::FreeBsd | Platform::OpenBsd => {
            out.push_str("ifconfig ");
            out.push_str(
                if up {
                    "up"
                } else {
                    "down"
                },
            );
            out.push_str(" failed with ");
            out.push_str(detail);
            assert(out@ =~= "ifconfig "@ + ifconfig_state(up) + " failed with "@ + detail@);
            Some(out)
        },
        Platform::Windows => {
            out.push_str("netsh interface ");
            out.push_str(
                if up {
                    "enabled"
                } else {
                    "disabled"
                },
            );
            out.push_str(" failed: ");
            out.push_str(text_trim(detail).as_str());
            Some(out)
        },
        _ => None,
    }
}

/// What came of changing the link, by how the one command that changes it ended. On Linux
/// that is a request over netlink, whose error is passed on.
pub fn link_result(platform: Platform, up: bool, outcome: &CommandOutcome) -> (r: Result<
    (),
    CommandFailure,
>)
    ensures
        failure(r) == link_outcome(platform, up, *outcome),
        r is Ok <==> *outcome is Success || platform == Platform::Android || platform
            == Platform::Other,
{
    if matches!(platform, Platform::Android) || matches!(platform, Platform::Other) {
        return Ok(());
    }
    match outcome {
        CommandOutcome::Success => Ok(()),
        CommandOutcome::Exited(detail) => {
            let message = match link_failure(platform, up, detail.as_str()) {
                Some(text) => text,
                None => detail.as_str().to_owned(),
            };
            Err(CommandFailure { message, cause: None })
        },
        CommandOutcome::NotRun(error) => {
            let error = error.as_str().to_owned();
            match platform {
                Platform::Linux => Err(CommandFailure { message: error, cause: None }),
                Platform::Windows => Err(
                    CommandFailure {
                        message: "run netsh interface set interface".to_owned(),
                        cause: Some(error),
                    },
                ),
                _ => Err(
                    CommandFailure { message: "run ifconfig".to_owned(), cause: Some(error) },
                ),
            }
        },
    }
}

/// Brings the link up, when the VPN is activated.
pub fn set_link_up(platform: Platform, tun_name: &str) -> (r: LinkAction)
    ensures
        match platform {
            Platform::MacOs | Platform::FreeBsd | Platform::OpenBsd => {
                &&& r is Ifconfig
                &&& texts(r->Ifconfig_0@) == seq![tun_name@, "up"@]
            },
            Platform::Linux => r is Netlink && r->up,
            Platform::Windows => r is Netsh && link_args(r->Netsh_0@, tun_name@, true),
            _ => r is Nothing,
        },
{
    set_link_state(platform, tun_name, true)
}

/// Brings the link down, for standby. The device stays open, so it can be brought back up
/// without being made anew.
pub fn set_link_down(platform: Platform, tun_name: &str) -> (r: LinkAction)
    ensures
        match platform {
            Platform::MacOs | Platform::FreeBsd | Platform::OpenBsd => {
                &&& r is Ifconfig
                &&& texts(r->Ifconfig_0@) == seq![tun_name@, "down"@]
            },
            Platform::Linux => r is Netlink && !r->up,
            Platform::Windows => r is Netsh && link_args(r->Netsh_0@, tun_name@, false),
            _ => r is Nothing,
        },
{
    set_link_state(platform, tun_name, false)
}

} // verus!
