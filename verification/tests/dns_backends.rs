use rayfish::addr::Ipv4Addr;
use rayfish::dns::configurator::DnsConfigurator;
use rayfish::dns::configure::{
    clear_search_domains, detect_and_configure, emergency_restore_resolv_conf, next_backend_step,
    remove_dns_config, resolved_is_in_resolution_path, restore_backup, restore_leftover,
    restore_stale_backups, set_manager_search_domains, set_search_domains, Backend, LadderStep,
    ManagerAction, RestoreProbe, SearchTarget,
};
use rayfish::dns::openbsd::{
    backup_path, capture_search_domains, parse_nameservers, revert, OpenBsdResolvConf,
    TakeoverError,
};
use rayfish::dns::search::{join_domains, search_domains_for, SearchDomain};
use rayfish::dns::windows::{
    parse_dns_server_values, reset_wintun_dns_script, ServerValues, WindowsDns,
};
use rayfish::files::{ConfigFile, FileStep};
use rayfish::platform::Platform;
use rayfish::tun::windows::ps_quote;

const HOSTS_FILE: &str =
    "search lan homelab.ray\nnameserver 192.168.1.1\nnameserver 9.9.9.9\nnameserver 192.168.1.1\n";

fn v4(text: &str) -> Ipv4Addr {
    Ipv4Addr::parse(text).unwrap()
}

/// The answers of a host, asked in the order of the ladder.
fn settle(answers: &[bool]) -> LadderStep {
    let mut step = detect_and_configure(Platform::Linux);
    for yes in answers {
        step = next_backend_step(step, *yes);
    }
    step
}

#[test]
fn ddd_wintun_cleanup_resets_adapter_dns_instead_of_copying_host_upstreams() {
    let reset = reset_wintun_dns_script("Rayfish Tunnel");
    assert!(reset.contains("-ResetServerAddresses"));
    assert!(!reset.contains("-ServerAddresses '192."));
}

#[test]
fn windows_dns_upstreams_cover_zero_one_many_and_invalid_values() {
    assert!(parse_dns_server_values(&ServerValues::Nothing).is_empty());
    assert_eq!(
        parse_dns_server_values(&ServerValues::One("1.1.1.1".to_string())),
        vec![v4("1.1.1.1")]
    );
    assert_eq!(
        parse_dns_server_values(&ServerValues::Many(vec![
            "8.8.8.8".to_string(),
            "not-an-ip".to_string(),
            "9.9.9.9".to_string(),
        ])),
        vec![v4("8.8.8.8"), v4("9.9.9.9")]
    );
}

#[test]
fn windows_dns_adapter_exposes_stable_interface_contract() {
    let dns = WindowsDns {
        interface_alias: "Rayfish Tunnel".to_string(),
        upstreams: vec![v4("192.168.1.1")],
    };
    assert_eq!(dns.name(), "windows-powershell-dns");
    assert_eq!(dns.captured_upstreams(), dns.upstreams);
}

#[test]
fn a_windows_backend_lists_nothing_after_ours() {
    let dns = WindowsDns {
        interface_alias: "rayfish".to_string(),
        upstreams: vec![v4("192.168.1.1")],
    };
    assert!(dns.fallback_upstreams().is_empty());
    assert_eq!(dns.shared_resolver(), None);
}

#[test]
fn an_apostrophe_cannot_end_a_quoted_name() {
    assert_eq!(ps_quote(""), "");
    assert_eq!(ps_quote("O'Brien"), "O''Brien");
    assert_eq!(
        reset_wintun_dns_script("O'Brien"),
        "Set-DnsClientServerAddress -InterfaceAlias 'O''Brien' -ResetServerAddresses"
    );
}

#[test]
fn each_platform_has_its_backend() {
    assert_eq!(
        detect_and_configure(Platform::MacOs),
        LadderStep::Apply(Backend::MacosDynamicStore)
    );
    assert_eq!(
        detect_and_configure(Platform::OpenBsd),
        LadderStep::Apply(Backend::OpenBsdResolvConf)
    );
    assert_eq!(
        detect_and_configure(Platform::Windows),
        LadderStep::Apply(Backend::WindowsDns)
    );
    assert_eq!(detect_and_configure(Platform::FreeBsd), LadderStep::Unsupported);
    assert_eq!(detect_and_configure(Platform::Android), LadderStep::Unsupported);
}

#[test]
fn linux_takes_the_first_backend_that_is_asked() {
    assert_eq!(settle(&[true, true]), LadderStep::Apply(Backend::ResolvedDbus));
    assert_eq!(
        settle(&[true, false, true]),
        LadderStep::Apply(Backend::ResolvedCli)
    );
    assert_eq!(
        settle(&[true, false, false, true]),
        LadderStep::Apply(Backend::Resolvconf)
    );
    assert_eq!(
        settle(&[true, false, false, false]),
        LadderStep::Apply(Backend::DirectResolvConf)
    );
    // Out of the path: neither resolved nor the shim in front of it.
    assert_eq!(
        settle(&[false, true]),
        LadderStep::Apply(Backend::DirectResolvConf)
    );
    assert_eq!(
        settle(&[false, false, true]),
        LadderStep::Apply(Backend::Resolvconf)
    );
    assert_eq!(
        settle(&[false, false, false]),
        LadderStep::Apply(Backend::DirectResolvConf)
    );
}

#[test]
fn a_backend_is_applied_once_and_ends_the_run() {
    assert_eq!(
        settle(&[true, true, true]),
        LadderStep::Configured(Backend::ResolvedDbus)
    );
    // A backend that cannot be applied is not followed by the next one.
    assert_eq!(
        settle(&[true, true, false]),
        LadderStep::Failed(Backend::ResolvedDbus)
    );
    assert_eq!(
        settle(&[true, true, false, true, true]),
        LadderStep::Failed(Backend::ResolvedDbus)
    );
    assert_eq!(
        settle(&[true, false, true, true, false]),
        LadderStep::Configured(Backend::ResolvedCli)
    );
    let windows = detect_and_configure(Platform::Windows);
    assert_eq!(
        next_backend_step(windows, true),
        LadderStep::Configured(Backend::WindowsDns)
    );
    assert_eq!(
        next_backend_step(windows, false),
        LadderStep::Failed(Backend::WindowsDns)
    );
    assert_eq!(
        next_backend_step(LadderStep::Unsupported, true),
        LadderStep::Unsupported
    );
}

#[test]
fn search_domains_go_to_the_file_or_to_the_manager() {
    let domains = search_domains_for(&["homelab".to_string()]);
    for backend in [
        Backend::Resolvconf,
        Backend::DirectResolvConf,
        Backend::OpenBsdResolvConf,
    ] {
        assert_eq!(
            set_search_domains(backend, &domains, "rayfish0"),
            SearchTarget::File
        );
    }
    for (backend, platform) in [
        (Backend::MacosDynamicStore, Platform::MacOs),
        (Backend::ResolvedDbus, Platform::Linux),
        (Backend::ResolvedCli, Platform::Linux),
        (Backend::WindowsDns, Platform::Windows),
    ] {
        assert_eq!(
            set_search_domains(backend, &domains, "rayfish0"),
            SearchTarget::Manager(set_manager_search_domains(platform, &domains, "rayfish0"))
        );
    }
    assert_eq!(
        set_search_domains(Backend::ResolvedCli, &domains, "rayfish0"),
        SearchTarget::Manager(ManagerAction::SetResolved {
            domains: search_domains_for(&["homelab".to_string()]),
            tun_name: "rayfish0".to_string(),
        })
    );
}

#[test]
fn resolved_is_asked_through_its_stub_or_its_module() {
    assert!(resolved_is_in_resolution_path("nameserver 127.0.0.53\n", ""));
    assert!(resolved_is_in_resolution_path("", "hosts: files resolve\n"));
    assert!(!resolved_is_in_resolution_path("nameserver 9.9.9.9\n", "hosts: files dns\n"));
}

#[test]
fn a_stale_backup_goes_back_over_the_live_file() {
    assert_eq!(
        restore_backup(
            Platform::Linux,
            ConfigFile::ResolvConfBackup,
            ConfigFile::ResolvConf,
            true,
            Some("# Added by rayfish - do not edit\nnameserver 200::53\n"),
        ),
        vec![
            FileStep::Copy {
                from: ConfigFile::ResolvConfBackup,
                to: ConfigFile::ResolvConf
            },
            FileStep::Remove(ConfigFile::ResolvConfBackup),
        ]
    );
    assert_eq!(
        restore_backup(
            Platform::Linux,
            ConfigFile::ResolvConfBackup,
            ConfigFile::ResolvConf,
            false,
            None,
        ),
        vec![]
    );
}

#[test]
fn a_file_shared_with_another_vpn_loses_only_our_entries() {
    let shared =
        "# Added by rayfish - do not edit\nnameserver 200::53\nnameserver 100.100.100.100\n";
    assert_eq!(
        restore_backup(
            Platform::Linux,
            ConfigFile::ResolvConfBackup,
            ConfigFile::ResolvConf,
            true,
            Some(shared),
        ),
        vec![
            FileStep::Write(
                ConfigFile::ResolvConf,
                "nameserver 100.100.100.100\n".to_string()
            ),
            FileStep::Remove(ConfigFile::ResolvConfBackup),
        ]
    );
    // OpenBSD has no such sharing: the backup goes back.
    assert_eq!(
        restore_backup(
            Platform::OpenBsd,
            ConfigFile::ResolvConfBackup,
            ConfigFile::ResolvConf,
            true,
            Some(shared),
        )
        .len(),
        2
    );
}

#[test]
fn only_a_leftover_of_ours_is_removed() {
    assert_eq!(
        restore_leftover(
            Platform::Linux,
            ConfigFile::NmDropin,
            Some("# Added by rayfish - do not edit\n[main]\ndns=none\n"),
        ),
        vec![FileStep::Remove(ConfigFile::NmDropin)]
    );
    assert_eq!(
        restore_leftover(Platform::Linux, ConfigFile::NmDropin, Some("[main]\ndns=none\n")),
        vec![]
    );
    assert_eq!(restore_leftover(Platform::Linux, ConfigFile::NmDropin, None), vec![]);
    assert_eq!(
        restore_leftover(
            Platform::MacOs,
            ConfigFile::LegacyResolver,
            Some("# written by rayfish\nnameserver 100.100.100.53\n"),
        ),
        vec![FileStep::Remove(ConfigFile::LegacyResolver)]
    );
}

#[test]
fn each_platform_looks_where_it_left_something() {
    assert_eq!(
        restore_stale_backups(Platform::Linux),
        vec![
            RestoreProbe::Backup {
                backup: ConfigFile::ResolvConfBackup,
                live: ConfigFile::ResolvConf
            },
            RestoreProbe::Leftover(ConfigFile::NmDropin),
        ]
    );
    assert_eq!(restore_stale_backups(Platform::MacOs).len(), 2);
    assert_eq!(restore_stale_backups(Platform::OpenBsd).len(), 1);
    assert_eq!(restore_stale_backups(Platform::Windows), vec![]);
    assert_eq!(
        emergency_restore_resolv_conf(Platform::Linux),
        restore_stale_backups(Platform::Linux)
    );
    assert_eq!(emergency_restore_resolv_conf(Platform::MacOs), vec![]);
}

#[test]
fn clearing_never_writes_the_macos_keys_anew() {
    let domains = search_domains_for(&["homelab".to_string()]);
    let tun_name = "utun9".to_string();
    assert_eq!(
        set_manager_search_domains(Platform::MacOs, &domains, "utun9"),
        ManagerAction::WriteKeys { domains: domains.clone(), tun_name: tun_name.clone() }
    );
    assert_eq!(clear_search_domains(Platform::MacOs, "utun9"), ManagerAction::RemoveKeys);
    assert_eq!(remove_dns_config(), ManagerAction::RemoveKeys);
    assert_eq!(
        set_manager_search_domains(Platform::Linux, &domains, "utun9"),
        ManagerAction::SetResolved { domains, tun_name: tun_name.clone() }
    );
    assert_eq!(
        clear_search_domains(Platform::Linux, "utun9"),
        ManagerAction::SetResolved { domains: vec![], tun_name: tun_name.clone() }
    );
    assert_eq!(
        clear_search_domains(Platform::Windows, "utun9"),
        ManagerAction::Reconcile { domains: vec![], tun_name }
    );
    assert_eq!(
        clear_search_domains(Platform::OpenBsd, "utun9"),
        ManagerAction::Nothing
    );
}

#[test]
fn domains_handed_to_a_manager_still_name_their_networks() {
    match set_manager_search_domains(
        Platform::Windows,
        &search_domains_for(&["homelab".to_string()]),
        "rayfish",
    ) {
        ManagerAction::Reconcile { domains, .. } => {
            assert_eq!(domains[0].network_name(), Some("homelab"));
        }
        _ => panic!("Windows reconciles"),
    }
}

/// The files after one restore on Linux.
fn restored(files: &[(ConfigFile, &str)]) -> Vec<(ConfigFile, String)> {
    let mut files: Vec<(ConfigFile, String)> =
        files.iter().map(|(f, c)| (*f, c.to_string())).collect();
    for probe in restore_stale_backups(Platform::Linux) {
        let read = |file| files.iter().find(|(f, _)| *f == file).map(|(_, c)| c.clone());
        let steps = match probe {
            RestoreProbe::Backup { backup, live } => restore_backup(
                Platform::Linux,
                backup,
                live,
                read(backup).is_some(),
                read(live).as_deref(),
            ),
            RestoreProbe::Leftover(file) => {
                restore_leftover(Platform::Linux, file, read(file).as_deref())
            }
        };
        for step in steps {
            let (file, contents) = match step {
                FileStep::Write(file, contents) => (file, Some(contents)),
                FileStep::Copy { from, to } => {
                    (to, files.iter().find(|(f, _)| *f == from).map(|(_, c)| c.clone()))
                }
                FileStep::Remove(file) => (file, None),
            };
            files.retain(|(f, _)| *f != file);
            if let Some(contents) = contents {
                files.push((file, contents));
            }
        }
    }
    files
}

#[test]
fn restoring_twice_changes_nothing_more() {
    let once = restored(&[
        (ConfigFile::ResolvConf, "# Added by rayfish\nnameserver 200::53\n"),
        (ConfigFile::ResolvConfBackup, "nameserver 9.9.9.9\n"),
        (ConfigFile::NmDropin, "# Added by rayfish\n[main]\ndns=none\n"),
    ]);
    assert_eq!(
        once,
        vec![(ConfigFile::ResolvConf, "nameserver 9.9.9.9\n".to_string())]
    );
    let again: Vec<(ConfigFile, &str)> = once.iter().map(|(f, c)| (*f, c.as_str())).collect();
    assert_eq!(restored(&again), once);
}

#[test]
fn files_live_where_the_system_looks_for_them() {
    assert_eq!(ConfigFile::ResolvConf.path("nm"), "/etc/resolv.conf");
    assert_eq!(
        ConfigFile::ResolvConfBackup.path("nm"),
        "/etc/resolv.conf.before-rayfish"
    );
    assert_eq!(backup_path(), "/etc/resolv.conf.before-rayfish");
    assert_eq!(ConfigFile::NmDropin.path("nm"), "nm");
    assert_eq!(ConfigFile::LegacyResolver.path("nm"), "/etc/resolver/ray");
    assert_eq!(
        ConfigFile::LegacyResolverBackup.path("nm"),
        "/etc/resolver/ray.before-rayfish"
    );
}

#[test]
fn openbsd_captures_the_hosts_servers_and_domains() {
    assert_eq!(
        parse_nameservers(HOSTS_FILE),
        vec![v4("192.168.1.1"), v4("9.9.9.9")]
    );
    assert_eq!(join_domains(&capture_search_domains(HOSTS_FILE)), "lan");
    assert_eq!(
        join_domains(&capture_search_domains("domain corp\nsearch ray a b\n")),
        "corp a b"
    );
}

#[test]
fn openbsd_takes_the_file_over_with_the_servers_that_answer() {
    let c = OpenBsdResolvConf::new(HOSTS_FILE, vec![v4("9.9.9.9")], false);
    assert_eq!(
        OpenBsdResolvConf::dead_servers(HOSTS_FILE, &[v4("9.9.9.9")]),
        vec![v4("192.168.1.1")]
    );
    let file =
        "# Added by rayfish - do not edit\nnameserver 200::53\nnameserver 9.9.9.9\nsearch lan\n";
    assert_eq!(
        c.apply(true, false),
        Ok(vec![
            FileStep::Copy {
                from: ConfigFile::ResolvConf,
                to: ConfigFile::ResolvConfBackup
            },
            FileStep::Write(ConfigFile::ResolvConf, file.to_string()),
        ])
    );
    assert_eq!(c.name(), "openbsd-resolv.conf");
    assert_eq!(c.captured_upstreams(), vec![v4("9.9.9.9")]);
    assert_eq!(c.fallback_upstreams(), vec![v4("9.9.9.9")]);
}

#[test]
fn openbsd_backs_the_hosts_file_up_only_once() {
    let c = OpenBsdResolvConf::new(HOSTS_FILE, vec![v4("9.9.9.9")], false);
    let again = c.set_search_domains(&search_domains_for(&["homelab".to_string()]), true, true);
    assert_eq!(
        again,
        vec![FileStep::Write(
            ConfigFile::ResolvConf,
            "# Added by rayfish - do not edit\nnameserver 200::53\nnameserver 9.9.9.9\nsearch homelab.ray ray\n"
                .to_string()
        )]
    );
    assert_eq!(
        revert(true),
        vec![
            FileStep::Copy {
                from: ConfigFile::ResolvConfBackup,
                to: ConfigFile::ResolvConf
            },
            FileStep::Remove(ConfigFile::ResolvConfBackup),
        ]
    );
    assert_eq!(revert(false), vec![]);
}

#[test]
fn openbsd_refuses_to_leave_the_host_without_a_server() {
    let none = OpenBsdResolvConf::new(HOSTS_FILE, vec![], false);
    assert_eq!(none.apply(true, false), Err(TakeoverError::NoWorkingServer));
    let operator = OpenBsdResolvConf::new(HOSTS_FILE, vec![], true);
    assert!(operator.apply(true, false).is_ok());
}

#[test]
fn openbsd_reads_each_server_of_its_own_file_back_once() {
    let twice = vec![v4("9.9.9.9"), v4("1.1.1.1"), v4("9.9.9.9")];
    let c = OpenBsdResolvConf::new(HOSTS_FILE, twice, false);
    let ours = c.render(&[SearchDomain::from_host("two words\r")]);
    assert_eq!(parse_nameservers(&ours), vec![v4("9.9.9.9"), v4("1.1.1.1")]);
    assert_eq!(join_domains(&capture_search_domains(&ours)), "two words");
}

#[test]
fn openbsd_captures_nothing_of_its_own_file() {
    let c = OpenBsdResolvConf::new(HOSTS_FILE, vec![v4("9.9.9.9")], false);
    let ours = c.render(&search_domains_for(&["homelab".to_string()]));
    assert_eq!(parse_nameservers(&ours), vec![v4("9.9.9.9")]);
    assert!(capture_search_domains(&ours).is_empty());
}
