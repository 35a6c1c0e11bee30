//! The commands and scripts that configure the Wintun adapter.

use vstd::prelude::*;

use crate::digits::{decimal, decimal_text, parse_u32, read_u32};
use crate::text::{chars_of, starts_with, texts};

verus! {

/// The overlay range, routed into the adapter. IPv6 only: the mesh carries no IPv4, and
/// `100.64.0.0/10` belongs to whatever else shares the host.
pub const PEER_RANGE: &'static str = "200::/7";

/// The on-link next hop.
pub const ON_LINK: &'static str = "::";

/// The routes for the peers, as prefix and next hop.
pub fn windows_peer_routes() -> (r: [(&'static str, &'static str); 1])
    ensures
        r@[0].0@ == PEER_RANGE@,
        r@[0].1@ == ON_LINK@,
{
    [(PEER_RANGE, ON_LINK)]
}

/// Where the Wintun library is loaded from: beside the executable, if it is there, or by its
/// bare name.
pub fn wintun_library_path(beside_exe: Option<String>, is_file: bool) -> (r: String)
    ensures
        r@ == (match beside_exe {
            Some(path) if is_file => path@,
            _ => "wintun.dll"@,
        }),
        beside_exe is Some && is_file ==> r@ == beside_exe->0@,
        beside_exe is None || !is_file ==> r@ == "wintun.dll"@,
{
    match beside_exe {
        Some(path) => if is_file {
            path
        } else {
            "wintun.dll".to_owned()
        },
        None => "wintun.dll".to_owned(),
    }
}

/// Whether `a` are the arguments of `netsh` that enable or disable the adapter.
pub open spec fn link_args(a: Seq<String>, tun: Seq<char>, up: bool) -> bool {
    texts(a) == seq![
        "interface"@,
        "set"@,
        "interface"@,
        "name="@ + tun,
        "admin="@ + (if up {
            "enabled"@
        } else {
            "disabled"@
        }),
    ]
}

/// The arguments of `netsh` that enable or disable the adapter.
pub fn windows_link_args(tun_name: &str, up: bool) -> (r: [String; 5])
    ensures
        link_args(r@, tun_name@, up),
{
    let mut name = String::new();
    name.push_str("name=");
    name.push_str(tun_name);
    let mut admin = String::new();
    admin.push_str("admin=");
    if up {
        admin.push_str("enabled");
    } else {
        admin.push_str("disabled");
    }
    assert(name@ =~= "name="@ + tun_name@);
    assert(admin@ =~= "admin="@ + (if up {
        "enabled"@
    } else {
        "disabled"@
    }));
    let r: [String; 5] = [
        "interface".to_owned(),
        "set".to_owned(),
        "interface".to_owned(),
        name,
        admin,
    ];
    assert(texts(r@) =~= seq![
        "interface"@,
        "set"@,
        "interface"@,
        "name="@ + tun_name@,
        "admin="@ + (if up {
            "enabled"@
        } else {
            "disabled"@
        }),
    ]);
    r
}

/// `s` with every apostrophe doubled, which is how it stands between apostrophes in a
/// PowerShell script.
pub open spec fn quoted(s: Seq<char>) -> Seq<char>
    decreases s.len(),
{
    if s.len() == 0 {
        seq![]
    } else if s.last() == '\'' {
        quoted(s.drop_last()) + seq!['\'', '\'']
    } else {
        quoted(s.drop_last()).push(s.last())
    }
}

/// Doubles every apostrophe of `s`.
pub fn ps_quote(s: &str) -> (r: String)
    ensures
        r@ == quoted(s@),
{
    let v: Vec<char> = chars_of(s);
    let mut out = String::new();
    let mut i: usize = 0;
    while i < v.len()
        invariant
            i <= v@.len(),
            out@ == quoted(v@.take(i as int)),
        decreases v@.len() - i,
    {
        let ghost before = out@;
        out.push(v[i]);
        if v[i] == '\'' {
            out.push('\'');
        }
        proof {
            let next = v@.take(i + 1);
            assert(next.drop_last() =~= v@.take(i as int));
            if v@[i as int] == '\'' {
                assert(out@ =~= before + seq!['\'', '\'']);
            }
        }
        i = i + 1;
    }
    assert(v@.take(i as int) =~= v@);
    out
}

/// What PowerShell reads as the rest of a literal between apostrophes that `s` begins with:
/// the value, and how far the literal reaches, its closing apostrophe included. Two
/// apostrophes stand for one.
pub open spec fn read_literal(s: Seq<char>) -> Option<(Seq<char>, nat)>
    decreases s.len(),
{
    if s.len() == 0 {
        None
    } else if s[0] == '\'' {
        if s.len() > 1 && s[1] == '\'' {
            match read_literal(s.skip(2)) {
                Some((v, n)) => Some((seq!['\''] + v, n + 2)),
                None => None,
            }
        } else {
            Some((seq![], 1))
        }
    } else {
        match read_literal(s.skip(1)) {
            Some((v, n)) => Some((seq![s[0]] + v, n + 1)),
            None => None,
        }
    }
}

/// A quoted name cannot end its own literal: between apostrophes it is read back whole, and
/// what follows is not read as part of it.
pub proof fn quoted_name_is_one_literal(name: Seq<char>, rest: Seq<char>)
    requires
        rest.len() == 0 || rest[0] != '\'',
    ensures
        read_literal(quoted(name) + seq!['\''] + rest) == Some((name, quoted(name).len() + 1)),
    decreases name.len(),
{
    let s = quoted(name) + seq!['\''] + rest;
    if name.len() == 0 {
        assert(s[0] == '\'');
        assert(s.len() > 1 ==> s[1] == rest[0]);
        assert(name =~= seq![]);
    } else {
        let tail = name.drop_first();
        let c = name[0];
        lemma_quoted_first(name);
        quoted_name_is_one_literal(tail, rest);
        let t = quoted(tail) + seq!['\''] + rest;
        if c == '\'' {
            assert(s =~= seq!['\'', '\''] + t);
            assert(s.skip(2) =~= t);
        } else {
            assert(s =~= seq![c] + t);
            assert(s.skip(1) =~= t);
        }
        assert(seq![c] + tail =~= name);
    }
}

proof fn lemma_quoted_first(s: Seq<char>)
    requires
        s.len() > 0,
    ensures
        quoted(s) == (if s[0] == '\'' {
            seq!['\'', '\'']
        } else {
            seq![s[0]]
        }) + quoted(s.drop_first()),
    decreases s.len(),
{
    let first = if s[0] == '\'' {
        seq!['\'', '\'']
    } else {
        seq![s[0]]
    };
    if s.len() == 1 {
        assert(s.drop_last() =~= seq![]);
        assert(s.drop_first() =~= seq![]);
        assert(quoted(s.drop_last()) =~= seq![]);
        assert(quoted(s) =~= first + quoted(s.drop_first()));
    } else {
        lemma_quoted_first(s.drop_last());
        assert(s.drop_last().drop_first() =~= s.drop_first().drop_last());
        assert(quoted(s) =~= first + quoted(s.drop_first()));
    }
}

/// The script that finds the index of the adapter with a given name.
pub open spec fn query_script(tun: Seq<char>) -> Seq<char> {
    "@(Get-NetAdapter | Where-Object { $_.Name -eq '"@ + quoted(tun)
        + "' } | Select-Object -ExpandProperty ifIndex)"@
}

/// The script that finds the index of the adapter with a given name.
pub fn windows_interface_query_script(tun_name: &str) -> (r: String)
    ensures
        r@ == query_script(tun_name@),
{
    let mut out = String::new();
    out.push_str("@(Get-NetAdapter | Where-Object { $_.Name -eq '");
    out.push_str(ps_quote(tun_name).as_str());
    out.push_str("' } | Select-Object -ExpandProperty ifIndex)");
    assert(out@ =~= query_script(tun_name@));
    out
}

/// The adapter's name stands in the query as one literal, whatever apostrophes it holds.
pub proof fn query_compares_the_whole_name(tun: Seq<char>)
    ensures
        ({
            let head = "@(Get-NetAdapter | Where-Object { $_.Name -eq '"@;
            &&& query_script(tun).take(head.len() as int) == head
            &&& read_literal(query_script(tun).skip(head.len() as int)) == Some(
                (tun, quoted(tun).len() + 1),
            )
        }),
{
    let head = "@(Get-NetAdapter | Where-Object { $_.Name -eq '"@;
    let tail = "' } | Select-Object -ExpandProperty ifIndex)"@;
    let s = query_script(tun);
    reveal_strlit("' } | Select-Object -ExpandProperty ifIndex)");
    assert(s.take(head.len() as int) =~= head);
    let rest = tail.skip(1);
    assert(tail =~= seq!['\''] + rest);
    assert(s.skip(head.len() as int) =~= quoted(tun) + seq!['\''] + rest);
    quoted_name_is_one_literal(tun, rest);
}

/// The script that removes a route of the adapter; one that is not there is no error.
pub open spec fn remove_script(prefix: Seq<char>, index: u32) -> Seq<char> {
    "Remove-NetRoute -DestinationPrefix '"@ + prefix + "' -InterfaceIndex "@ + decimal(
        index as nat,
    ) + " -Confirm:$false -ErrorAction SilentlyContinue"@
}

/// The script that removes a route of the adapter; one that is not there is no error.
pub fn windows_remove_route_script(prefix: &str, index: u32) -> (r: String)
    ensures
        r@ == remove_script(prefix@, index),
{
    let mut out = String::new();
    out.push_str("Remove-NetRoute -DestinationPrefix '");
    out.push_str(prefix);
    out.push_str("' -InterfaceIndex ");
    out.push_str(decimal_text(index as u64).as_str());
    out.push_str(" -Confirm:$false -ErrorAction SilentlyContinue");
    assert(out@ =~= remove_script(prefix@, index));
    out
}

/// The script that replaces a route of the adapter: remove, then add, so running it again
/// makes no second route.
pub open spec fn replace_script(prefix: Seq<char>, index: u32, next_hop: Seq<char>) -> Seq<char> {
    remove_script(prefix, index) + "; New-NetRoute -DestinationPrefix '"@ + prefix
        + "' -InterfaceIndex "@ + decimal(index as nat) + " -NextHop '"@ + next_hop
        + "' -PolicyStore ActiveStore -ErrorAction Stop"@
}

/// The script that replaces a route of the adapter.
pub fn windows_replace_route_script(prefix: &str, index: u32, next_hop: &str) -> (r: String)
    ensures
        r@ == replace_script(prefix@, index, next_hop@),
{
    let mut out = windows_remove_route_script(prefix, index);
    out.push_str("; New-NetRoute -DestinationPrefix '");
    out.push_str(prefix);
    out.push_str("' -InterfaceIndex ");
    out.push_str(decimal_text(index as u64).as_str());
    out.push_str(" -NextHop '");
    out.push_str(next_hop);
    out.push_str("' -PolicyStore ActiveStore -ErrorAction Stop");
    assert(out@ =~= replace_script(prefix@, index, next_hop@));
    out
}

/// Replacing a route begins with removing it, so replacing it again makes no second one.
pub proof fn replace_begins_with_remove(prefix: Seq<char>, index: u32, next_hop: Seq<char>)
    ensures
        starts_with(
            replace_script(prefix, index, next_hop),
            remove_script(prefix, index),
        ),
{
    let r = remove_script(prefix, index);
    assert(replace_script(prefix, index, next_hop).take(r.len() as int) =~= r);
}

/// A script that stops at its first error.
pub fn powershell_script(script: &str) -> (r: String)
    ensures
        r@ == "$ErrorActionPreference='Stop'; "@ + script@,
{
    let mut out = String::new();
    out.push_str("$ErrorActionPreference='Stop'; ");
    out.push_str(script);
    assert(out@ =~= "$ErrorActionPreference='Stop'; "@ + script@);
    out
}

/// Why an adapter's index is not known.
#[derive(Clone, Copy, Debug, PartialEq, Eq, Structural)]
pub enum IndexError {
    /// No adapter, or more than one, has the name.
    NotUnique,
    /// The answer is not an index.
    NotANumber,
}

/// The adapter's index, from what the query printed.
pub fn windows_interface_index(output: &str) -> (r: Result<u32, IndexError>)
    ensures
        r == (if output@.len() == 0 || output@.contains('\n') {
            Err(IndexError::NotUnique)
        } else {
            match read_u32(output@) {
                Some(n) => Ok(n),
                None => Err(IndexError::NotANumber),
            }
        }),
        r == Err::<u32, IndexError>(IndexError::NotUnique) <==> output@.len() == 0
            || output@.contains('\n'),
        r matches Ok(n) ==> read_u32(output@) == Some(n),
{
    let v: Vec<char> = chars_of(output);
    if v.len() == 0 {
        return Err(IndexError::NotUnique);
    }
    let mut i: usize = 0;
    while i < v.len()
        invariant
            i <= v@.len(),
            v@ == output@,
            forall|j: int| 0 <= j < i ==> v@[j] != '\n',
        decreases v@.len() - i,
    {
        if v[i] == '\n' {
            assert(output@[i as int] == '\n');
            return Err(IndexError::NotUnique);
        }
        i = i + 1;
    }
    match parse_u32(output) {
        Some(n) => Ok(n),
        None => Err(IndexError::NotANumber),
    }
}

/// What to do next in routing a number of prefixes into the adapter.
#[derive(Clone, Copy, Debug, PartialEq, Eq, Structural)]
pub enum RouteInstall {
    /// Replace the route of the prefix with this position.
    Install(usize),
    /// An install failed: remove the route at `at`, one of the `installed` that are in place.
    RollBack { at: usize, installed: usize },
    /// Every route is in place.
    Done,
    /// An install failed, and what was in place is removed.
    Failed,
}

/// Where routing `count` prefixes begins.
pub fn begin_route_install(count: usize) -> (r: RouteInstall)
    ensures
        r == (if count == 0 {
            RouteInstall::Done
        } else {
            RouteInstall::Install(0)
        }),
{
    if count == 0 {
        RouteInstall::Done
    } else {
        RouteInstall::Install(0)
    }
}

/// What follows a step of routing `count` prefixes, which succeeded or not. Whether a
/// removal succeeds makes no difference.
pub open spec fn route_step_after(s: RouteInstall, ok: bool, count: usize) -> RouteInstall {
    match s {
        RouteInstall::Install(i) => if ok {
            if i + 1 < count {
                RouteInstall::Install((i + 1) as usize)
            } else {
                RouteInstall::Done
            }
        } else if i > 0 {
            RouteInstall::RollBack { at: 0, installed: i }
        } else {
            RouteInstall::Failed
        },
        RouteInstall::RollBack { at, installed } => if at + 1 < installed {
            RouteInstall::RollBack { at: (at + 1) as usize, installed }
        } else {
            RouteInstall::Failed
        },
        RouteInstall::Done => RouteInstall::Done,
        RouteInstall::Failed => RouteInstall::Failed,
    }
}

/// Goes on with routing `count` prefixes, once a step succeeded or not.
pub fn next_route_install(step: RouteInstall, ok: bool, count: usize) -> (r: RouteInstall)
    ensures
        r == route_step_after(step, ok, count),
{
    match step {
        RouteInstall::Install(i) => if ok {
            if i < count && i + 1 < count {
                RouteInstall::Install(i + 1)
            } else {
                RouteInstall::Done
            }
        } else if i > 0 {
            RouteInstall::RollBack { at: 0, installed: i }
        } else {
            RouteInstall::Failed
        },
        RouteInstall::RollBack { at, installed } => if at < installed && at + 1 < installed {
            RouteInstall::RollBack { at: at + 1, installed }
        } else {
            RouteInstall::Failed
        },
        RouteInstall::Done => RouteInstall::Done,
        RouteInstall::Failed => RouteInstall::Failed,
    }
}

/// The positions from `lo` up to, not including, `hi`.
pub open spec fn positions(lo: int, hi: int) -> Set<int> {
    Set::new(|i: int| lo <= i < hi)
}

/// The routes in place after a step, where a removal succeeds.
pub open spec fn routes_after(s: RouteInstall, ok: bool, routes: Set<int>) -> Set<int> {
    match s {
        RouteInstall::Install(i) => if ok {
            routes.insert(i as int)
        } else {
            routes
        },
        RouteInstall::RollBack { at, .. } => routes.remove(at as int),
        _ => routes,
    }
}

/// Which routes are in place when a step is reached.
pub open spec fn routes_at(s: RouteInstall, routes: Set<int>, count: usize) -> bool {
    match s {
        RouteInstall::Install(i) => i < count && routes == positions(0, i as int),
        RouteInstall::RollBack { at, installed } => at < installed <= count && routes == positions(
            at as int,
            installed as int,
        ),
        RouteInstall::Done => routes == positions(0, count as int),
        RouteInstall::Failed => routes == positions(0, 0),
    }
}

/// Routing is all or nothing: at every step exactly the routes that the step says are in
/// place, so it ends with all of them, or, after a failure, with none.
pub proof fn routing_is_all_or_nothing(s: RouteInstall, ok: bool, routes: Set<int>, count: usize)
    requires
        routes_at(s, routes, count),
    ensures
        routes_at(route_step_after(s, ok, count), routes_after(s, ok, routes), count),
{
    match s {
        RouteInstall::Install(i) => {
            assert(positions(0, i as int).insert(i as int) =~= positions(0, i + 1));
            assert(positions(0, i as int) =~= routes);
        },
        RouteInstall::RollBack { at, installed } => {
            assert(positions(at as int, installed as int).remove(at as int) =~= positions(
                at + 1,
                installed as int,
            ));
            assert(at + 1 >= installed ==> positions(at + 1, installed as int) =~= positions(0, 0));
        },
        _ => {},
    }
}

} // verus!
