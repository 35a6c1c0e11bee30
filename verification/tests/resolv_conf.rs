use rayfish::addr::{IpAddr, Ipv4Addr};
use rayfish::dns::resolv_conf::{
    first_nameserver, foreign_mesh_resolver, merge_search_domains, nm_dns_none_dropin,
    nm_quiet_outcome, nsswitch_uses_resolve, other_overlay_resolver, parse_resolv_nameservers,
    reassert_decision, render_direct_resolv_conf, render_direct_resolv_conf_with,
    resolv_conf_is_ours, resolv_conf_points_at_resolved, server_among, servers_lost,
    strip_our_resolv_entries, NmQuietOutcome, Reassert, MAX_NAMESERVERS,
};
use rayfish::dns::search::{join_domains, search_domains_for, SearchDomain};
use rayfish::dns::{magic_dns_v6, resolver_addr};

fn v4(text: &str) -> Ipv4Addr {
    Ipv4Addr::parse(text).unwrap()
}

/// Domains as the host had them, i.e. read back from its own config.
fn host(domains: &[&str]) -> Vec<SearchDomain> {
    domains.iter().map(|d| SearchDomain::from_host(d)).collect()
}

fn networks(names: &[&str]) -> Vec<String> {
    names.iter().map(|n| n.to_string()).collect()
}

#[test]
fn only_a_network_dot_ray_yields_a_network_name() {
    fn names(domains: &[SearchDomain]) -> Vec<String> {
        domains
            .iter()
            .filter_map(SearchDomain::network_name)
            .map(str::to_owned)
            .collect()
    }

    assert_eq!(
        names(&search_domains_for(&networks(&["homelab"]))),
        ["homelab"]
    );
    // The `ray` root is in every list and names no network.
    assert!(names(&search_domains_for(&[])).is_empty());
    // Nothing the host already had is ours to turn into a namespace, even
    // when it happens to end in our domain.
    assert!(names(&host(&["corp", "other.example.com"])).is_empty());
    assert!(names(&host(&["homelab.ray"])).is_empty());
    // A deeper name under `.ray` is not a network either.
    assert!(names(&host(&["box.homelab.ray"])).is_empty());
}

#[test]
fn resolv_conf_is_ours_detects_marker() {
    assert!(resolv_conf_is_ours(
        "# Added by rayfish - do not edit\nnameserver 200::53\n"
    ));
    assert!(!resolv_conf_is_ours(
        "# Generated by NetworkManager\nnameserver 192.168.1.1\n"
    ));
}

#[test]
fn foreign_mesh_resolver_spots_another_overlays_dns() {
    // Another overlay's resolver: in the CGNAT range, so it can only be an overlay.
    assert_eq!(
        foreign_mesh_resolver(
            "# resolv.conf generated by a VPN\nnameserver 100.100.100.100\nsearch ts.net\n"
        ),
        Some(v4("100.100.100.100"))
    );
    // An ordinary file is free to take over.
    assert_eq!(
        foreign_mesh_resolver("# Generated by NetworkManager\nnameserver 192.168.1.1\n"),
        None
    );
    // Ours is not foreign, whether we look at the marker or the address.
    assert_eq!(
        foreign_mesh_resolver(
            "# Added by rayfish - do not edit\nnameserver 200::53\nnameserver 1.1.1.1\n"
        ),
        None
    );
    assert_eq!(
        foreign_mesh_resolver("nameserver 200::53\nnameserver 1.1.1.1\n"),
        None
    );
    // Any run of white space separates the keyword from its value.
    assert_eq!(
        foreign_mesh_resolver("nameserver\t100.100.100.100\n"),
        Some(v4("100.100.100.100"))
    );
}

#[test]
fn reassert_merges_with_another_overlay_and_rewrites_over_anything_else() {
    let theirs: Ipv4Addr = v4("100.100.100.100");
    // Ours: nothing to do.
    assert_eq!(
        reassert_decision(
            "# Added by rayfish - do not edit\nnameserver 200::53\n",
            None
        ),
        Reassert::Held
    );
    // A trample by something that will not fight back: put ours back now.
    assert_eq!(
        reassert_decision(
            "# Generated by NetworkManager\nnameserver 192.168.1.1\n",
            None
        ),
        Reassert::Rewrite
    );
    // Another VPN took the file. Ours goes back on top of theirs.
    assert_eq!(
        reassert_decision("nameserver 100.100.100.100\nsearch ts.net\n", None),
        Reassert::Merge(theirs)
    );
    // Same file, already merged with them: still a merge.
    assert_eq!(
        reassert_decision("nameserver 100.100.100.100\n", Some(theirs)),
        Reassert::Merge(theirs)
    );
    // The overlay it was merged with is gone and the host's own servers are back.
    assert_eq!(
        reassert_decision(
            "# Generated by NetworkManager\nnameserver 192.168.1.1\n",
            Some(theirs)
        ),
        Reassert::Reclaim
    );
}

/// The undo for an additive write. What is left has to be *their* file.
#[test]
fn stripping_our_entries_leaves_the_other_vpn_theirs() {
    let merged = "# Added by rayfish - do not edit\nnameserver 200::53\nnameserver 100.100.100.100\nsearch tailnet.ts.net homelab.ray ray\n";
    assert_eq!(
        strip_our_resolv_entries(merged),
        "nameserver 100.100.100.100\nsearch tailnet.ts.net\n"
    );
    let merged_v6 = "# Added by rayfish - do not edit\nnameserver 200::53\nnameserver 100.100.100.100\nsearch ray\n";
    assert_eq!(
        strip_our_resolv_entries(merged_v6),
        "nameserver 100.100.100.100\n"
    );
    // Nothing of ours in it: left exactly as found.
    let theirs = "nameserver 100.100.100.100\nsearch tailnet.ts.net\n";
    assert_eq!(strip_our_resolv_entries(theirs), theirs);
}

#[test]
fn other_overlay_resolver_sees_through_our_own_marker() {
    let merged =
        "# Added by rayfish - do not edit\nnameserver 200::53\nnameserver 100.100.100.100\n";
    assert_eq!(foreign_mesh_resolver(merged), None);
    assert_eq!(other_overlay_resolver(merged), Some(v4("100.100.100.100")));
    // Ours alone is not another overlay.
    let plain = "# Added by rayfish - do not edit\nnameserver 200::53\n";
    assert_eq!(other_overlay_resolver(plain), None);
}

#[test]
fn first_nameserver_is_the_one_glibc_asks() {
    // A file merged from two stanzas: only the first is queried.
    let merged = "# Dynamic resolv.conf\nnameserver 100.100.100.100\nnameserver 200::53\nsearch ts.net ray\n";
    assert_eq!(
        first_nameserver(merged),
        Some(IpAddr::parse("100.100.100.100").unwrap())
    );
    assert_eq!(
        first_nameserver("search ray\nnameserver\t200::53\n"),
        Some(IpAddr::parse("200::53").unwrap())
    );
    assert_eq!(first_nameserver("search ray\n"), None);
}

#[test]
fn search_domains_keep_the_hosts_own_first() {
    let rayfish = search_domains_for(&networks(&["homelab", "work"]));
    // The suffix is applied exactly once, by the constructor.
    assert_eq!(join_domains(&rayfish), "homelab.ray work.ray ray");
    // The host's own domains still resolve, and a domain named twice is listed once.
    assert_eq!(
        join_domains(&merge_search_domains(&host(&["lan", "ray"]), &rayfish)),
        "lan ray homelab.ray work.ray"
    );
    assert_eq!(merge_search_domains(&[], &rayfish), rayfish);
    // Reading back a file we wrote must not turn our own domains into the host's.
    assert!(SearchDomain::from_host("ray").is_ours());
    assert!(SearchDomain::from_host("homelab.ray").is_ours());
    assert!(!SearchDomain::from_host("lan").is_ours());
    assert!(!SearchDomain::from_host("notray").is_ours());
}

#[test]
fn search_domains_overflow_keeps_the_catch_all() {
    // Three host domains plus four networks is eight entries, and the resolver reads six.
    let captured = host(&["corp.example.com", "example.com", "lan"]);
    let rayfish = search_domains_for(&networks(&["a", "b", "c", "d"]));
    let merged = merge_search_domains(&captured, &rayfish);
    assert_eq!(merged.len(), 6);
    // The host's own domains outrank ours: they resolved here before.
    assert_eq!(
        join_domains(&merged),
        "corp.example.com example.com lan a.ray b.ray ray"
    );
    // Already inside the cap: nothing is rearranged.
    let small = merge_search_domains(&host(&["lan"]), &search_domains_for(&[]));
    assert_eq!(join_domains(&small), "lan ray");
}

/// The re-assert loop reads the domains through a shared handle rather than
/// the snapshot it started with, so a join or leave lands in the file the
/// next repair writes.
#[test]
fn reassert_renders_the_live_search_list() {
    let handle = std::sync::Arc::new(arc_swap::ArcSwap::from_pointee(search_domains_for(&[])));
    assert!(render_direct_resolv_conf(&handle.load(), &[]).contains("search ray\n"));
    handle.store(std::sync::Arc::new(search_domains_for(&networks(&[
        "homelab",
    ]))));
    assert!(render_direct_resolv_conf(&handle.load(), &[]).contains("search homelab.ray ray\n"));
}

#[test]
fn quieting_networkmanager_can_invalidate_the_capture_that_allowed_the_takeover() {
    let nm = v4("127.0.0.1");
    let router = v4("192.168.1.1");

    assert_eq!(
        nm_quiet_outcome(&[nm], &[], false),
        NmQuietOutcome::Abort,
        "the last surviving upstream died with NM's dnsmasq"
    );
    // The operator named their own servers: degraded, not clean.
    assert_eq!(
        nm_quiet_outcome(&[nm], &[], true),
        NmQuietOutcome::Degraded(vec![nm])
    );
    // A real router alongside NM's forwarder: degraded, not fatal.
    assert_eq!(
        nm_quiet_outcome(&[nm, router], &[router], false),
        NmQuietOutcome::Degraded(vec![nm])
    );
    // Nothing died.
    assert_eq!(
        nm_quiet_outcome(&[router], &[router], false),
        NmQuietOutcome::Proceed
    );
    assert_eq!(nm_quiet_outcome(&[], &[], true), NmQuietOutcome::Proceed);
}

#[test]
fn nothing_answering_before_the_quiet_is_not_a_verdict_about_networkmanager() {
    assert_eq!(nm_quiet_outcome(&[], &[], false), NmQuietOutcome::Proceed);
    // And the abort still fires when something *was* answering and stopped.
    let nm = v4("127.0.0.1");
    assert_eq!(nm_quiet_outcome(&[nm], &[], false), NmQuietOutcome::Abort);
}

#[test]
fn a_degraded_verdict_names_exactly_the_servers_that_died() {
    let nm = v4("127.0.0.1");
    let router = v4("192.168.1.1");
    let public = v4("9.9.9.9");
    assert_eq!(
        nm_quiet_outcome(&[nm, router, public], &[router, public], false),
        NmQuietOutcome::Degraded(vec![nm])
    );
    assert_eq!(
        nm_quiet_outcome(&[nm, router, public], &[public], false),
        NmQuietOutcome::Degraded(vec![nm, router])
    );
}

#[test]
fn a_loopback_nameserver_is_captured_like_any_other() {
    let c = "# Generated by NetworkManager\nnameserver 127.0.0.1\n";
    assert_eq!(parse_resolv_nameservers(c), vec![v4("127.0.0.1")]);
}

#[test]
fn parse_resolv_nameservers_extracts_ipv4_excluding_magic() {
    let c = "# Generated by NetworkManager\nsearch home\nnameserver 192.168.1.1\n\
             nameserver 100.100.100.53\nnameserver 8.8.8.8\nnameserver 200::53\n";
    assert_eq!(
        parse_resolv_nameservers(c),
        vec![v4("192.168.1.1"), v4("8.8.8.8")]
    );
}

#[test]
fn render_direct_resolv_conf_points_at_magic_ip() {
    let out = render_direct_resolv_conf(&search_domains_for(&networks(&["homelab"])), &[]);
    assert!(out.starts_with("# Added by rayfish"));
    assert!(out.contains("nameserver 200::53"));
    assert!(out.contains("search homelab.ray ray"));
}

/// An IPv6-only host must be pointed at the v6 resolver.
#[test]
fn render_direct_resolv_conf_can_point_at_the_v6_magic_ip() {
    let out = render_direct_resolv_conf_with(
        IpAddr::V6(magic_dns_v6()),
        &search_domains_for(&[]),
        &[v4("1.1.1.1")],
    );
    assert!(out.contains("nameserver 200::53"));
    assert!(!out.contains("100.100.100.53"));
    // The upstream fallback is still IPv4.
    assert!(out.contains("nameserver 1.1.1.1"));
}

/// Whichever address we installed, a revert has to take it back out.
#[test]
fn strip_removes_either_magic_address() {
    let v6 = "# Added by rayfish - do not edit\nnameserver 200::53\nnameserver 9.9.9.9\n";
    assert_eq!(strip_our_resolv_entries(v6), "nameserver 9.9.9.9\n");
    let v4 = "# Added by rayfish - do not edit\nnameserver 100.100.100.53\nnameserver 9.9.9.9\n";
    assert_eq!(strip_our_resolv_entries(v4), "nameserver 9.9.9.9\n");
    // And both at once.
    let both = "# Added by rayfish - do not edit\nnameserver 200::53\nnameserver 100.100.100.53\nnameserver 9.9.9.9\n";
    assert_eq!(strip_our_resolv_entries(both), "nameserver 9.9.9.9\n");
}

#[test]
fn backup_less_revert_keeps_the_other_nameservers() {
    let ours = "# Added by rayfish - do not edit\nnameserver 200::53\nnameserver 108.61.10.10\n";
    assert_eq!(strip_our_resolv_entries(ours), "nameserver 108.61.10.10\n");
}

#[test]
fn backup_less_revert_preserves_search_domains_and_options() {
    let ours = "# Added by rayfish - do not edit\nsearch home lan\nnameserver 200::53\nnameserver 1.1.1.1\noptions ndots:2\n";
    let out = strip_our_resolv_entries(ours);
    assert!(out.contains("search home lan"));
    assert!(out.contains("nameserver 1.1.1.1"));
    assert!(out.contains("options ndots:2"));
    assert!(!out.contains("100.100.100.53"));
}

#[test]
fn backup_less_revert_can_empty_the_server_list_without_losing_the_file() {
    // Our resolver was the only entry. The result is a file with no servers.
    let ours = "# Added by rayfish - do not edit\nnameserver 200::53\n";
    assert_eq!(strip_our_resolv_entries(ours), "\n");
}

#[test]
fn foreign_resolv_conf_does_not_count_as_reaching_resolved() {
    let c = "nameserver 108.61.10.10\nnameserver 9.9.9.9\nnameserver 2001:19f0:300:1704::6\n";
    assert!(!resolv_conf_points_at_resolved(c));
    assert!(!nsswitch_uses_resolve("hosts:          files dns\n"));
}

#[test]
fn stub_resolv_conf_counts_as_reaching_resolved() {
    assert!(resolv_conf_points_at_resolved(
        "nameserver 127.0.0.53\noptions edns0\n"
    ));
    assert!(resolv_conf_points_at_resolved("nameserver 127.0.0.54\n"));
}

#[test]
fn nsswitch_resolve_module_counts_as_reaching_resolved() {
    assert!(nsswitch_uses_resolve(
        "passwd: files\nhosts: mymachines resolve [!UNAVAIL=return] files dns\n"
    ));
    // A commented-out line is not configuration, and `resolve` has to be a
    // whole module name rather than a substring of another one.
    assert!(!nsswitch_uses_resolve("# hosts: resolve files\n"));
    assert!(!nsswitch_uses_resolve("hosts: files resolvectl dns\n"));
}

#[test]
fn render_direct_resolv_conf_no_search_line_when_empty() {
    let out = render_direct_resolv_conf(&[], &[]);
    assert!(out.contains("nameserver 200::53"));
    assert!(!out.contains("search "));
}

#[test]
fn render_direct_resolv_conf_lists_fallback_after_magic_ip() {
    let out = render_direct_resolv_conf(&[], &[v4("192.168.1.1")]);
    // Order is load-bearing: the resolver library tries entries top-down.
    let magic = out.find("nameserver 200::53").unwrap();
    let fallback = out.find("nameserver 192.168.1.1").unwrap();
    assert!(magic < fallback, "magic IP must be listed first:\n{out}");
}

#[test]
fn render_direct_resolv_conf_carries_every_server_up_to_maxns() {
    let servers: Vec<Ipv4Addr> = ["100.100.100.100", "192.168.1.1", "9.9.9.9"]
        .iter()
        .map(|s| v4(s))
        .collect();
    let out = render_direct_resolv_conf(&[], &servers);
    assert!(out.contains("nameserver 100.100.100.100\n"));
    assert!(out.contains("nameserver 192.168.1.1\n"));
    // Ours plus two is all that is read.
    assert!(!out.contains("9.9.9.9"));
    assert_eq!(out.matches("nameserver ").count(), MAX_NAMESERVERS);
}

#[test]
fn parse_resolv_nameservers_accepts_tabs_and_runs_of_spaces() {
    let c = "nameserver\t192.168.1.1\nnameserver   8.8.8.8\n";
    assert_eq!(
        parse_resolv_nameservers(c),
        vec![v4("192.168.1.1"), v4("8.8.8.8")]
    );
}

#[test]
fn parse_resolv_nameservers_ignores_non_nameserver_lines() {
    let c = "# nameserver 9.9.9.9\noptions ndots:2\nsearch example.com\nnameserver 1.1.1.1\n";
    assert_eq!(parse_resolv_nameservers(c), vec![v4("1.1.1.1")]);
}

#[test]
fn nm_dns_none_dropin_carries_marker_and_setting() {
    let out = nm_dns_none_dropin();
    // Marker so revert only removes a file we own.
    assert!(resolv_conf_is_ours(&out));
    assert!(out.contains("[main]"));
    assert!(out.contains("dns=none"));
}

#[test]
fn a_rendered_file_is_exactly_this() {
    assert_eq!(
        render_direct_resolv_conf(
            &search_domains_for(&networks(&["homelab"])),
            &[v4("192.168.1.1")]
        ),
        "# Added by rayfish - do not edit\nnameserver 200::53\nnameserver 192.168.1.1\nsearch homelab.ray ray\n"
    );
    assert_eq!(
        nm_dns_none_dropin(),
        "# Added by rayfish - do not edit\n[main]\ndns=none\n"
    );
}

#[test]
fn a_rendered_file_is_held_and_asked_through_us_and_read_back() {
    let servers = [v4("192.168.1.1"), v4("9.9.9.9")];
    let file = render_direct_resolv_conf(&search_domains_for(&networks(&["homelab"])), &servers);
    assert_eq!(reassert_decision(&file, None), Reassert::Held);
    assert_eq!(first_nameserver(&file), Some(resolver_addr()));
    assert_eq!(parse_resolv_nameservers(&file), servers);
}

#[test]
fn stripping_a_rendered_file_leaves_the_hosts_part() {
    let servers = [v4("192.168.1.1")];
    let merged = merge_search_domains(&host(&["lan"]), &search_domains_for(&networks(&["homelab"])));
    let file = render_direct_resolv_conf(&merged, &servers);
    let stripped = strip_our_resolv_entries(&file);
    assert_eq!(stripped, "nameserver 192.168.1.1\nsearch lan\n");
    assert_eq!(strip_our_resolv_entries(&stripped), stripped);
    assert_eq!(
        parse_resolv_nameservers(&stripped),
        parse_resolv_nameservers(&file)
    );
    assert!(!resolv_conf_is_ours(&stripped));
}

#[test]
fn carriage_returns_do_not_hide_a_server() {
    assert_eq!(
        parse_resolv_nameservers("nameserver 8.8.8.8\r\nnameserver 9.9.9.9\r\n"),
        vec![v4("8.8.8.8"), v4("9.9.9.9")]
    );
    assert!(resolv_conf_is_ours("  # Added by rayfish\r\n"));
}

#[test]
fn servers_lost_keeps_the_order() {
    let a = v4("1.1.1.1");
    let b = v4("2.2.2.2");
    let c = v4("3.3.3.3");
    assert_eq!(servers_lost(&[a, b, c], &[b]), vec![a, c]);
    assert_eq!(servers_lost(&[a], &[a]), vec![]);
    assert!(server_among(&[a, b], b));
    assert!(!server_among(&[a, b], c));
}

#[test]
fn a_search_domain_names_its_network_once() {
    let d = SearchDomain::for_network("homelab");
    assert_eq!(d.as_str(), "homelab.ray");
    assert_eq!(d.network_name(), Some("homelab"));
    assert!(d.is_ours());
    assert_eq!(d.clone(), d);
    assert_eq!(d.clone().network_name(), Some("homelab"));
    // The same text from the host is an equal domain, and names no network.
    let captured = SearchDomain::from_host("homelab.ray");
    assert_eq!(captured, d);
    assert_eq!(captured.network_name(), None);
    assert_eq!(captured.clone().network_name(), None);
    let twice = SearchDomain::for_network(d.as_str());
    assert_eq!(twice.as_str(), "homelab.ray.ray");
    assert_eq!(twice.network_name(), None);
    assert_eq!(SearchDomain::root().as_str(), "ray");
    assert_eq!(SearchDomain::root().network_name(), None);
    assert_eq!(SearchDomain::from_host(".ray").network_name(), None);
}

#[test]
fn a_long_search_domain_is_kept_whole() {
    let long = "a-network-with-a-name-that-is-longer-than-what-fits-inline";
    assert_eq!(
        SearchDomain::for_network(long).as_str(),
        format!("{long}.ray")
    );
}

#[test]
fn the_merged_list_never_repeats_itself() {
    let merged = merge_search_domains(
        &host(&["a", "b", "a", "ray", "c", "d", "e"]),
        &search_domains_for(&networks(&["x"])),
    );
    assert_eq!(join_domains(&merged), "a b ray c d e");
}

#[test]
fn a_merged_domain_stays_whose_it_was() {
    let named = |list: &[SearchDomain]| -> Vec<Option<String>> {
        list.iter()
            .map(|d| d.network_name().map(str::to_string))
            .collect()
    };
    // One that both have is the host's, and names no network of ours.
    let merged = merge_search_domains(
        &host(&["homelab.ray", "lan"]),
        &search_domains_for(&networks(&["homelab", "work"])),
    );
    assert_eq!(join_domains(&merged), "homelab.ray lan work.ray ray");
    assert_eq!(
        named(&merged),
        [None, None, Some("work".to_string()), None]
    );
    // Where the list is cut, what is left stays as it was.
    let cut = merge_search_domains(
        &host(&["a", "b", "c.ray"]),
        &search_domains_for(&networks(&["d", "e", "f"])),
    );
    assert_eq!(join_domains(&cut), "a b c.ray d.ray e.ray ray");
    assert_eq!(
        named(&cut),
        [None, None, None, Some("d".to_string()), Some("e".to_string()), None]
    );
}
