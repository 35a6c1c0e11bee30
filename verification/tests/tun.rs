use bytes::BytesMut;
use rayfish::command::{CommandFailure, CommandOutcome};
use rayfish::platform::Platform;
use rayfish::tun::routes::ExitFamilies::{Dual, Neither, Unknown, V4, V6};
use rayfish::tun::routes::{
    link_failure, link_result, next_route_step, route_default_via_tun, route_failure,
    route_peer_range, route_result, route_self_loopback, self_route_failure, self_route_result,
    set_link_down, set_link_up, split_default_plan, unroute_default_via_tun, unroute_peer_range,
    DefaultRouteStep, ExitFamilies, LinkAction, PeerRange, RouteStep,
};
use rayfish::tun::mtu::MtuSetter;
use rayfish::tun::windows::{
    begin_route_install, next_route_install, powershell_script, windows_interface_index,
    windows_interface_query_script, windows_link_args, windows_peer_routes,
    windows_remove_route_script, windows_replace_route_script, wintun_library_path, IndexError,
    RouteInstall,
};
use rayfish::tun::{
    commit_packet, configure_mtu, device_name, device_settings, next_mtu, MtuStep, TunWrite,
    MIN_TUN_MTU, READ_RESERVE, TUN_MTU, WINDOWS_TUN_NAME,
};

#[test]
fn preferred_mtu_rejection_retries_at_ipv6_minimum() {
    let mut attempts = Vec::new();
    let mtu = configure_mtu(&mut MtuSetter::new(|mtu| {
        attempts.push(mtu);
        if mtu > 1280 {
            Err(std::io::ErrorKind::InvalidInput)
        } else {
            Ok(())
        }
    }))
    .unwrap();
    assert_eq!(mtu, 1280);
    assert_eq!(attempts, [1500, 1280]);
}

#[test]
fn mtu_setup_does_not_hide_a_failed_fallback() {
    let mut attempts = Vec::new();
    let result = configure_mtu(&mut MtuSetter::new(|mtu| {
        attempts.push(mtu);
        Err(std::io::ErrorKind::PermissionDenied)
    }));
    assert!(result.is_err());
    assert_eq!(attempts, [1500, 1280]);
}

#[test]
fn supported_preferred_mtu_needs_no_retry() {
    let mut attempts = Vec::new();
    let mtu = configure_mtu(&mut MtuSetter::new(|mtu| {
        attempts.push(mtu);
        Ok::<(), std::io::ErrorKind>(())
    }))
    .unwrap();
    assert_eq!(mtu, 1500);
    assert_eq!(attempts, [1500]);
}

/// A narrowing tunnel must delete the family it stopped carrying.
#[test]
fn the_split_default_plan_visits_every_family_and_adds_only_what_it_carries() {
    let deletes = |carries| -> Vec<String> {
        split_default_plan(carries, "utun9")
            .into_iter()
            .map(|s| s.delete.join(" "))
            .collect()
    };
    let adds = |carries| -> Vec<String> {
        split_default_plan(carries, "utun9")
            .into_iter()
            .filter_map(|s| s.add.map(|a| a.join(" ")))
            .collect()
    };

    // Every family is deleted whatever the tunnel carries.
    let all_four = [
        "-n delete -inet -net 0.0.0.0/1 -interface utun9",
        "-n delete -inet -net 128.0.0.0/1 -interface utun9",
        "-n delete -inet6 -net ::/1 -interface utun9",
        "-n delete -inet6 -net 8000::/1 -interface utun9",
    ];
    for carries in [Dual, V6, V4, Neither, Unknown] {
        assert_eq!(deletes(carries), all_four, "{carries:?}");
    }

    // And only the carried family is added back.
    assert_eq!(
        adds(V6),
        [
            "-n add -inet6 -net ::/1 -interface utun9",
            "-n add -inet6 -net 8000::/1 -interface utun9",
        ]
    );
    assert!(adds(Neither).is_empty(), "nothing to carry, nothing to add");
    assert_eq!(
        adds(V4),
        [
            "-n add -inet -net 0.0.0.0/1 -interface utun9",
            "-n add -inet -net 128.0.0.0/1 -interface utun9",
        ]
    );
    assert_eq!(adds(Dual).len(), 4);
    // An absent claim predates the field, so it is read as both families.
    assert_eq!(adds(Unknown).len(), 4);
}

#[test]
fn windows_link_args_cover_up_down_and_name_boundary() {
    let up = windows_link_args("Rayfish Tunnel", true);
    assert_eq!(
        up,
        [
            "interface",
            "set",
            "interface",
            "name=Rayfish Tunnel",
            "admin=enabled",
        ]
    );

    let down = windows_link_args("O'Brien", false);
    assert_eq!(down[3], "name=O'Brien");
    assert_eq!(down[4], "admin=disabled");
}

#[test]
fn windows_interface_query_quotes_powershell_boundaries() {
    let script = windows_interface_query_script("O'Brien");
    assert!(script.contains("Name -eq 'O''Brien'"));
    assert!(script.contains("ExpandProperty ifIndex"));
}

/// The overlay is IPv6-only.
#[test]
fn windows_peer_routes_are_the_overlay_range_only() {
    assert_eq!(windows_peer_routes(), [("200::/7", "::")]);
    assert_eq!(WINDOWS_TUN_NAME, "rayfish");
}

#[test]
fn windows_route_scripts_are_scoped_and_idempotent() {
    let remove = windows_remove_route_script("200::/7", 17);
    assert!(remove.contains("Remove-NetRoute"));
    assert!(remove.contains("-InterfaceIndex 17"));
    assert!(remove.contains("-ErrorAction SilentlyContinue"));

    // Replace is remove-then-add, so re-running it is a no-op rather than a
    // duplicate route.
    let replace = windows_replace_route_script("200::/7", 17, "::");
    assert!(replace.starts_with(&remove));
    assert!(replace.contains("New-NetRoute"));
    assert!(replace.contains("-DestinationPrefix '200::/7'"));
    assert!(replace.contains("-NextHop '::'"));
    assert!(replace.contains("-PolicyStore ActiveStore"));
}

/// Wintun is loaded by path, so the wrong name here is a runtime failure.
#[test]
fn wintun_library_contract_ends_in_dll() {
    for (beside, is_file) in [
        (None, false),
        (Some("/opt/rayfish/wintun.dll".to_string()), true),
        (Some("/opt/rayfish/wintun.dll".to_string()), false),
    ] {
        let path = std::path::PathBuf::from(wintun_library_path(beside, is_file));
        assert_eq!(
            path.file_name().and_then(|name| name.to_str()),
            Some("wintun.dll")
        );
    }
}

#[test]
fn the_library_beside_the_executable_comes_first() {
    let beside = "/opt/rayfish/wintun.dll".to_string();
    assert_eq!(wintun_library_path(Some(beside.clone()), true), beside);
    assert_eq!(wintun_library_path(Some(beside), false), "wintun.dll");
}

#[test]
fn a_rejected_mtu_is_followed_by_the_minimum_and_no_other() {
    assert_eq!(next_mtu(TUN_MTU, true), MtuStep::Settled(1500));
    assert_eq!(next_mtu(TUN_MTU, false), MtuStep::Retry(1280));
    assert_eq!(next_mtu(MIN_TUN_MTU, true), MtuStep::Settled(1280));
    assert_eq!(next_mtu(MIN_TUN_MTU, false), MtuStep::Failed);
}

#[test]
fn devices_are_made_at_the_minimum_mtu() {
    let linux = device_settings(Platform::Linux);
    assert_eq!((linux.prefix, linux.mtu, linux.mtu_v6), (128, 1280, None));
    assert_eq!(linux.name.as_deref(), Some("rayfish%d"));
    let windows = device_settings(Platform::Windows);
    assert_eq!(windows.mtu_v6, Some(1280));
    assert_eq!(windows.name.as_deref(), Some("rayfish"));
    assert_eq!(windows.description.as_deref(), Some("Rayfish"));
    assert_eq!(device_settings(Platform::MacOs).name, None);
    assert_eq!(device_name(Some("utun9".to_string())), "utun9");
    assert_eq!(device_name(None), "unknown");
}

#[test]
fn a_packet_goes_behind_the_pool() {
    let mut pool = BytesMut::from(&b"ab"[..]);
    let mut scratch = vec![0u8; READ_RESERVE];
    scratch[..3].copy_from_slice(b"xyz");
    assert_eq!(commit_packet(&mut pool, &scratch, 3), Some(3));
    assert_eq!(&pool[..], b"abxyz");
    assert_eq!(commit_packet(&mut pool, &scratch, 0), Some(0));
    assert_eq!(commit_packet(&mut pool, &scratch, READ_RESERVE + 1), None);
    assert_eq!(&pool[..], b"abxyz");
    assert_eq!(READ_RESERVE, TUN_MTU as usize + 4);
}

#[test]
fn a_packet_goes_behind_a_pool_that_was_taken_from() {
    let mut pool = BytesMut::from(&b"headtail"[..]);
    let head = pool.split_to(4);
    assert_eq!(commit_packet(&mut pool, b"more", 4), Some(4));
    assert_eq!(&pool[..], b"tailmore");
    assert_eq!(&head[..], b"head");
}

struct Fake;

impl TunWrite for Fake {}

#[test]
fn an_interface_that_says_nothing_takes_the_tunnels_mtu() {
    assert_eq!(Fake.mtu(), 1500);
}

#[test]
fn a_full_tunnel_goes_in_half_by_half() {
    let plan = split_default_plan(ExitFamilies::V6, "utun9");
    let mut step = DefaultRouteStep::Delete(0);
    let mut seen = Vec::new();
    while !matches!(step, DefaultRouteStep::Done | DefaultRouteStep::Failed(_)) {
        seen.push(step);
        // A delete of a route that is not there fails, and nothing follows from it.
        let ok = !matches!(step, DefaultRouteStep::Delete(_));
        step = route_default_via_tun(&plan, step, ok);
    }
    assert_eq!(step, DefaultRouteStep::Done);
    assert_eq!(
        seen,
        [
            DefaultRouteStep::Delete(0),
            DefaultRouteStep::Delete(1),
            DefaultRouteStep::Delete(2),
            DefaultRouteStep::Add(2),
            DefaultRouteStep::Delete(3),
            DefaultRouteStep::Add(3),
        ]
    );
    assert_eq!(
        route_default_via_tun(&plan, DefaultRouteStep::Add(2), false),
        DefaultRouteStep::Failed(2)
    );
}

#[test]
fn a_teardown_deletes_what_an_install_deletes() {
    let deletes: Vec<String> = unroute_default_via_tun("utun9")
        .into_iter()
        .map(|a| a.join(" "))
        .collect();
    let planned: Vec<String> = split_default_plan(ExitFamilies::Neither, "utun9")
        .into_iter()
        .map(|s| s.delete.join(" "))
        .collect();
    assert_eq!(deletes, planned);
}

#[test]
fn families_are_carried_as_claimed() {
    assert!(ExitFamilies::Dual.carries_v4() && ExitFamilies::Dual.carries_v6());
    assert!(!ExitFamilies::V6.carries_v4() && ExitFamilies::V6.carries_v6());
    assert!(!ExitFamilies::Neither.carries_v4() && !ExitFamilies::Neither.carries_v6());
    assert!(ExitFamilies::Unknown.is_unknown() && !ExitFamilies::V4.is_unknown());
}

#[test]
fn the_peer_range_is_routed_as_each_platform_spells_it() {
    match route_peer_range(Platform::Linux, "rayfish0") {
        PeerRange::Netlink { prefix, length } => {
            assert_eq!(prefix.to_text(), "200::");
            assert_eq!(length, 7);
        }
        _ => panic!("Linux routes over netlink"),
    }
    assert!(matches!(route_peer_range(Platform::Windows, "rayfish"), PeerRange::PowerShell));
    assert!(matches!(route_peer_range(Platform::Android, "tun0"), PeerRange::Nothing));
    match route_peer_range(Platform::MacOs, "utun9") {
        PeerRange::Route { delete, add } => {
            assert_eq!(delete.join(" "), "-n delete -inet6 -net 200::/7 -interface utun9");
            assert_eq!(add.join(" "), "-n add -inet6 -net 200::/7 -interface utun9");
        }
        _ => panic!("macOS routes with route(8)"),
    }
    match route_peer_range(Platform::OpenBsd, "tun0") {
        PeerRange::Route { delete, add } => {
            assert_eq!(delete.join(" "), "delete -inet6 -net 200::/7 -iface tun0");
            assert_eq!(add.join(" "), "add -inet6 -net 200::/7 -iface tun0");
        }
        _ => panic!("OpenBSD routes with route(8)"),
    }
    assert_eq!(
        unroute_peer_range(Platform::Windows, 17),
        [windows_remove_route_script("200::/7", 17)]
    );
    assert!(unroute_peer_range(Platform::Linux, 17).is_empty());
}

#[test]
fn own_addresses_are_kept_off_a_point_to_point_link() {
    let (delete, add) = route_self_loopback(Platform::MacOs, "200::1").unwrap();
    assert_eq!(delete.join(" "), "-n delete -inet6 -host 200::1 -interface lo0");
    assert_eq!(add.join(" "), "-n add -inet6 -host 200::1 -interface lo0");
    assert!(route_self_loopback(Platform::FreeBsd, "200::1").is_some());
    assert!(route_self_loopback(Platform::Linux, "200::1").is_none());
    assert_eq!(
        self_route_failure("200::1", "exit status: 1"),
        "route add -inet6 -host 200::1 via lo0 failed with exit status: 1"
    );
    assert_eq!(
        route_failure(&add, "exit status: 1"),
        "route -n add -inet6 -host 200::1 -interface lo0 failed with exit status: 1"
    );
}

#[test]
fn links_go_up_and_down_as_each_platform_has_it() {
    match set_link_up(Platform::OpenBsd, "tun0") {
        LinkAction::Ifconfig(args) => assert_eq!(args, ["tun0", "up"]),
        _ => panic!("OpenBSD has ifconfig"),
    }
    match set_link_down(Platform::MacOs, "utun9") {
        LinkAction::Ifconfig(args) => assert_eq!(args, ["utun9", "down"]),
        _ => panic!("macOS has ifconfig"),
    }
    assert!(matches!(
        set_link_up(Platform::Linux, "rayfish0"),
        LinkAction::Netlink { up: true }
    ));
    match set_link_down(Platform::Windows, "rayfish") {
        LinkAction::Netsh(args) => assert_eq!(args[4], "admin=disabled"),
        _ => panic!("Windows has netsh"),
    }
    assert!(matches!(set_link_up(Platform::Android, "tun0"), LinkAction::Nothing));
    assert_eq!(
        link_failure(Platform::FreeBsd, false, "exit status: 1").as_deref(),
        Some("ifconfig down failed with exit status: 1")
    );
    assert_eq!(
        link_failure(Platform::Windows, true, " denied\r\n").as_deref(),
        Some("netsh interface enabled failed: denied")
    );
    assert_eq!(link_failure(Platform::Linux, true, ""), None);
}

fn exited(detail: &str) -> CommandOutcome {
    CommandOutcome::Exited(detail.to_string())
}

fn not_run(error: &str) -> CommandOutcome {
    CommandOutcome::NotRun(error.to_string())
}

fn fails(message: &str, cause: Option<&str>) -> Result<(), CommandFailure> {
    Err(CommandFailure {
        message: message.to_string(),
        cause: cause.map(str::to_string),
    })
}

#[test]
fn a_link_has_its_state_if_the_command_succeeds() {
    for platform in [
        Platform::Linux,
        Platform::MacOs,
        Platform::Windows,
        Platform::FreeBsd,
        Platform::OpenBsd,
    ] {
        assert_eq!(link_result(platform, true, &CommandOutcome::Success), Ok(()));
        assert!(link_result(platform, true, &exited("no")).is_err());
        assert!(link_result(platform, false, &not_run("no")).is_err());
    }
    assert_eq!(
        link_result(Platform::OpenBsd, true, &exited("exit status: 1")),
        fails("ifconfig up failed with exit status: 1", None)
    );
    assert_eq!(
        link_result(Platform::MacOs, false, &not_run("not found")),
        fails("run ifconfig", Some("not found"))
    );
    assert_eq!(
        link_result(Platform::Windows, false, &exited("denied\r\n")),
        fails("netsh interface disabled failed: denied", None)
    );
    assert_eq!(
        link_result(Platform::Windows, true, &not_run("not found")),
        fails("run netsh interface set interface", Some("not found"))
    );
    assert_eq!(
        link_result(Platform::Linux, true, &not_run("query TUN link")),
        fails("query TUN link", None)
    );
    // Nothing is run where there is no link to change.
    assert_eq!(link_result(Platform::Android, true, &not_run("no")), Ok(()));
    assert_eq!(link_result(Platform::Other, true, &exited("no")), Ok(()));
}

#[test]
fn a_route_is_added_if_the_command_succeeds() {
    let args = vec!["add".to_string(), "200::/7".to_string()];
    assert_eq!(route_result(&args, &CommandOutcome::Success), Ok(()));
    assert_eq!(
        route_result(&args, &exited("exit status: 1")),
        fails("route add 200::/7 failed with exit status: 1", None)
    );
    assert_eq!(
        route_result(&args, &not_run("not found")),
        fails("run route add 200::/7", Some("not found"))
    );
    assert_eq!(self_route_result("200::1", &CommandOutcome::Success), Ok(()));
    assert_eq!(
        self_route_result("200::1", &exited("exit status: 1")),
        fails("route add -inet6 -host 200::1 via lo0 failed with exit status: 1", None)
    );
    assert_eq!(
        self_route_result("200::1", &not_run("not found")),
        fails("run route add (loopback self-route)", Some("not found"))
    );
}

#[test]
fn only_the_add_decides_whether_a_route_stands() {
    for deleted in [true, false] {
        assert_eq!(next_route_step(RouteStep::Delete, deleted), RouteStep::Add);
    }
    assert_eq!(next_route_step(RouteStep::Add, true), RouteStep::Done);
    assert_eq!(next_route_step(RouteStep::Add, false), RouteStep::Failed);
    assert_eq!(next_route_step(RouteStep::Done, false), RouteStep::Done);
    assert_eq!(next_route_step(RouteStep::Failed, true), RouteStep::Failed);
}

#[test]
fn a_route_can_be_put_in_place_again_and_again() {
    for held in [false, true] {
        // A table that takes an entry once and gives it up once.
        let mut table = held;
        for _ in 0..3 {
            let mut step = RouteStep::Delete;
            while !matches!(step, RouteStep::Done | RouteStep::Failed) {
                let ok = match step {
                    RouteStep::Delete => std::mem::replace(&mut table, false),
                    _ => !std::mem::replace(&mut table, true),
                };
                step = next_route_step(step, ok);
            }
            assert_eq!(step, RouteStep::Done);
            assert!(table);
        }
    }
}

#[test]
fn an_adapter_is_found_by_one_number() {
    assert_eq!(windows_interface_index("17"), Ok(17));
    assert_eq!(windows_interface_index(""), Err(IndexError::NotUnique));
    assert_eq!(windows_interface_index("17\n18"), Err(IndexError::NotUnique));
    assert_eq!(windows_interface_index("x"), Err(IndexError::NotANumber));
    assert_eq!(windows_interface_index("4294967296"), Err(IndexError::NotANumber));
    assert_eq!(windows_interface_index("4294967295"), Ok(u32::MAX));
    assert_eq!(
        powershell_script("Get-Date"),
        "$ErrorActionPreference='Stop'; Get-Date"
    );
}

#[test]
fn scripts_are_exactly_these() {
    assert_eq!(
        windows_interface_query_script("rayfish"),
        "@(Get-NetAdapter | Where-Object { $_.Name -eq 'rayfish' } | Select-Object -ExpandProperty ifIndex)"
    );
    assert_eq!(
        windows_replace_route_script("200::/7", 17, "::"),
        "Remove-NetRoute -DestinationPrefix '200::/7' -InterfaceIndex 17 -Confirm:$false -ErrorAction SilentlyContinue; New-NetRoute -DestinationPrefix '200::/7' -InterfaceIndex 17 -NextHop '::' -PolicyStore ActiveStore -ErrorAction Stop"
    );
}

#[test]
fn routing_prefixes_is_all_or_nothing() {
    assert_eq!(begin_route_install(0), RouteInstall::Done);
    let mut step = begin_route_install(3);
    step = next_route_install(step, true, 3);
    step = next_route_install(step, true, 3);
    assert_eq!(step, RouteInstall::Install(2));
    assert_eq!(next_route_install(step, true, 3), RouteInstall::Done);
    step = next_route_install(step, false, 3);
    assert_eq!(step, RouteInstall::RollBack { at: 0, installed: 2 });
    step = next_route_install(step, false, 3);
    assert_eq!(step, RouteInstall::RollBack { at: 1, installed: 2 });
    assert_eq!(next_route_install(step, true, 3), RouteInstall::Failed);
    assert_eq!(
        next_route_install(RouteInstall::Install(0), false, 3),
        RouteInstall::Failed
    );
}
