use dns_ai::netif::{
    apply_state, doh_entry_path, doh_key_path, doh_template_add, doh_template_exists,
    doh_template_lookup, doh_template_remove, doh_template_show, encryption_error, kind_of,
    native_doh_supported, netsh_error, no_window, parse_guid, process_failure, read_dns_state,
    read_doh_entry, same_address, select_adapters, listed, set_dns_dhcp, set_dns_encrypted, set_dns_static,
    settings_key, template_gone, windows_build, Adapter, AdapterKind, Calls, DnsState, Family, Listing, RegKind,
};

/// The byte order is the part that fails silently: a GUID with `data4` reversed is a valid
/// GUID for no adapter, and `SetInterfaceDnsSettings` reports that as "not found", not "wrong".
#[test]
fn interface_guid_is_parsed_field_by_field() {
    let g = parse_guid("{E6AF56C0-9A53-4678-9CB8-A69ADE6489F1}").unwrap();
    assert_eq!(g.data1, 0xE6AF56C0);
    assert_eq!(g.data2, 0x9A53);
    assert_eq!(g.data3, 0x4678);
    assert_eq!(g.data4, [0x9C, 0xB8, 0xA6, 0x9A, 0xDE, 0x64, 0x89, 0xF1]);

    let bare = parse_guid("e6af56c0-9a53-4678-9cb8-a69ade6489f1").unwrap();
    assert_eq!((bare.data1, bare.data4), (g.data1, g.data4));
}

#[test]
fn anything_but_a_guid_is_refused() {
    for bad in [
        "",
        "{E6AF56C0-9A53-4678-9CB8-A69ADE6489F}",
        "{E6AF56C09A5346789CB8A69ADE6489F1}",
        "{+6AF56C0-9A53-4678-9CB8-A69ADE6489F1}",
        r"{E6AF56C0-9A53-4678-9CB8-A69ADE6489F1}\Doh",
    ] {
        assert!(parse_guid(bad).is_err(), "{bad:?} was accepted");
    }
}

fn adapter(index: u32, alias: &str, description: &str) -> Adapter {
    Adapter {
        index,
        ipv6_index: index,
        guid: format!("{{guid-{index}}}"),
        alias: alias.to_string(),
        description: description.to_string(),
        if_type: 6,
        up: true,
        gateway_v4: true,
        gateway_v6: false,
    }
}

#[test]
fn a_tunnel_is_known_by_its_name_whatever_the_case() {
    assert!(matches!(adapter(1, "Ethernet", "Realtek PCIe GbE").kind(), AdapterKind::Physical));
    match adapter(1, "wg0", "WireGuard Tunnel").kind() {
        AdapterKind::Vpn(mark) => assert_eq!(mark, "wireguard"),
        other => panic!("{other:?}"),
    }
    assert!(matches!(kind_of("hyper-v virtual ethernet adapter", 6), AdapterKind::Virtual(_)));
    let mut tunnel = adapter(1, "x", "y");
    tunnel.if_type = 131;
    assert!(!matches!(tunnel.kind(), AdapterKind::Physical));
}

#[test]
fn every_adapter_that_is_up_is_chosen_or_skipped_with_a_reason() {
    let mut down = adapter(3, "Wi-Fi", "Intel");
    down.up = false;
    let mut lonely = adapter(4, "Ethernet 2", "Intel");
    lonely.gateway_v4 = false;
    assert!(!lonely.has_default_route());
    let all = vec![adapter(1, "Ethernet", "Realtek"), adapter(2, "wg0", "WireGuard Tunnel"), down, lonely];
    let s = select_adapters(&all, false);
    assert_eq!(s.chosen.iter().map(|a| a.index).collect::<Vec<_>>(), vec![1]);
    assert_eq!(s.skipped.iter().map(|a| a.alias.as_str()).collect::<Vec<_>>(), vec!["wg0", "Ethernet 2"]);
    assert_eq!(s.skipped[1].reason, "нет шлюза по умолчанию");
    let with = select_adapters(&all, true);
    assert_eq!(with.chosen.iter().map(|a| a.index).collect::<Vec<_>>(), vec![1, 2]);
}

#[test]
fn a_setting_is_read_from_its_list() {
    assert!(matches!(read_dns_state(None), DnsState::Dhcp));
    assert!(matches!(read_dns_state(Some("")), DnsState::Dhcp));
    match read_dns_state(Some("1.1.1.1, 8.8.8.8;9.9.9.9")) {
        DnsState::Static(list) => assert_eq!(list, vec!["1.1.1.1", "8.8.8.8", "9.9.9.9"]),
        other => panic!("{other:?}"),
    }
    assert_eq!(
        settings_key("{G}", Family::V4),
        r"SYSTEM\CurrentControlSet\Services\Tcpip\Parameters\Interfaces\{G}"
    );
    assert_eq!(
        settings_key("{G}", Family::V6),
        r"SYSTEM\CurrentControlSet\Services\Tcpip6\Parameters\Interfaces\{G}"
    );
}

#[test]
fn servers_are_set_one_after_the_other() {
    let calls = set_dns_static(7, Family::V4, &vec!["1.1.1.1".into(), "8.8.8.8".into()]);
    assert_eq!(
        calls,
        vec![
            vec!["interface", "ipv4", "set", "dnsservers", "name=7", "source=static", "address=1.1.1.1", "validate=no"],
            vec!["interface", "ipv4", "add", "dnsservers", "name=7", "address=8.8.8.8", "index=2", "validate=no"],
        ]
    );
    assert_eq!(
        set_dns_static(7, Family::V6, &vec![]),
        vec![vec!["interface", "ipv6", "set", "dnsservers", "name=7", "source=static", "address=none", "validate=no"]]
    );
    assert_eq!(
        set_dns_dhcp(7, Family::V6),
        vec!["interface", "ipv6", "set", "dnsservers", "name=7", "source=dhcp"]
    );
    assert_eq!(apply_state(7, Family::V4, &DnsState::Dhcp), vec![set_dns_dhcp(7, Family::V4)]);
    assert_eq!(
        apply_state(7, Family::V4, &DnsState::Static(vec!["1.1.1.1".into()])),
        set_dns_static(7, Family::V4, &vec!["1.1.1.1".into()])
    );
}

#[test]
fn templates_are_added_shown_and_removed() {
    assert_eq!(
        doh_template_add("1.1.1.1", "https://x/dns-query"),
        vec!["dns", "add", "encryption", "server=1.1.1.1", "dohtemplate=https://x/dns-query", "autoupgrade=yes", "udpfallback=no"]
    );
    assert_eq!(doh_template_show("1.1.1.1"), vec!["dns", "show", "encryption", "server=1.1.1.1"]);
    assert_eq!(doh_template_remove("1.1.1.1"), vec!["dns", "delete", "encryption", "server=1.1.1.1"]);
}

#[test]
fn a_template_is_there_only_where_its_address_is_shown() {
    assert_eq!(doh_template_lookup(true, "DNS-over-HTTPS: HTTPS://X/dns-query"), Some(true));
    assert_eq!(doh_template_lookup(true, "nothing here"), Some(false));
    assert_eq!(doh_template_lookup(false, "https://x"), None);
    assert!(doh_template_exists(Some(true)));
    assert!(!doh_template_exists(Some(false)) && !doh_template_exists(None));
    assert!(template_gone(true, None) && template_gone(false, Some(false)));
    assert!(!template_gone(false, Some(true)) && !template_gone(false, None));
}

#[test]
fn the_build_of_windows() {
    assert_eq!(windows_build(Some("22631")), 22_631);
    assert_eq!(windows_build(Some("not a number")), 0);
    assert_eq!(windows_build(None), 0);
    assert!(native_doh_supported(22_000) && !native_doh_supported(21_999));
    assert_eq!(no_window(), 0x0800_0000);
}

#[test]
fn one_address_in_two_spellings_is_one() {
    assert!(same_address(" 2A0D:8480:0000:067C::0014", "2a0d:8480:0:67c::14"));
    assert!(!same_address("2a0d:8480:0:67c::15", "2a0d:8480:0:67c::14"));
    assert!(!same_address("x", "x"));
}

#[test]
fn a_failed_process_is_told_on_one_line() {
    assert_eq!(process_failure(Some(1), "one\r\ntwo\r\n", " three "), "exit Some(1): one  two  three");
    assert_eq!(process_failure(Some(-1), "", ""), "exit Some(-1): ");
    assert_eq!(process_failure(None, "x", ""), "exit None: x");
    assert_eq!(
        netsh_error(&vec!["dns".into(), "show".into()], "exit Some(1): x"),
        "netsh dns show: exit Some(1): x"
    );
}

#[test]
fn entries_of_encrypted_dns_are_read_in_both_widths() {
    assert_eq!(
        doh_key_path("{G}", Family::V4),
        r"SYSTEM\CurrentControlSet\Services\Dnscache\InterfaceSpecificParameters\{G}\DohInterfaceSettings\Doh"
    );
    assert_eq!(
        doh_entry_path("{G}", Family::V6, "::1"),
        r"SYSTEM\CurrentControlSet\Services\Dnscache\InterfaceSpecificParameters\{G}\DohInterfaceSettings\Doh6\::1"
    );
    let long = read_doh_entry("1.1.1.1".into(), Some((RegKind::Qword, vec![0x11, 0, 0, 0, 0, 0, 0, 0])), None).unwrap();
    assert_eq!((long.server.as_str(), long.flags), ("1.1.1.1", 0x11));
    let short = read_doh_entry("1.1.1.1".into(), Some((RegKind::Dword, vec![1, 2, 0, 0])), Some("https://x".into())).unwrap();
    assert_eq!((short.flags, short.template.as_deref()), (0x201, Some("https://x")));
    assert!(read_doh_entry("1.1.1.1".into(), Some((RegKind::Qword, vec![1, 2, 0, 0])), None).is_none());
    assert!(read_doh_entry("1.1.1.1".into(), None, None).is_none());
}

#[test]
fn encryption_is_asked_for_by_family() {
    let guid = "{E6AF56C0-9A53-4678-9CB8-A69ADE6489F1}";
    let e = set_dns_encrypted(guid, Family::V6, &vec!["::1".into()]).unwrap();
    assert_eq!(e.interface.data1, 0xE6AF56C0);
    assert_eq!((e.flags, e.servers), (0x1003, 1));
    assert_eq!(e.name_server, vec![0x3a, 0x3a, 0x31, 0]);
    let none = set_dns_encrypted(guid, Family::V4, &vec![]).unwrap_err();
    assert_eq!(none, "encrypted DNS needs at least one server");
    assert!(set_dns_encrypted("x", Family::V4, &vec!["1.1.1.1".into()]).is_err());
    assert_eq!(
        encryption_error(Family::V4, &vec!["1.1.1.1".into(), "8.8.8.8".into()], 87),
        "SetInterfaceDnsSettings (ipv4, 1.1.1.1, 8.8.8.8) failed with code 87"
    );
}

#[test]
fn the_first_call_that_fails_ends_them() {
    let servers = vec!["1.1.1.1".to_string(), "8.8.8.8".to_string(), "9.9.9.9".to_string()];
    let list = set_dns_static(7, Family::V4, &servers);
    let mut run = Calls::begin(list.clone());
    assert_eq!(run.next(), Some(&list[0]));
    run.made(Ok(()));
    assert_eq!(run.next(), Some(&list[1]));
    run.made(Err("refused".into()));
    assert!(run.next().is_none());
    assert_eq!((run.done, run.outcome()), (1, Err("refused".to_string())));

    let mut run = Calls::begin(list);
    while run.next().is_some() {
        run.made(Ok(()));
    }
    assert_eq!((run.done, run.outcome()), (3, Ok(())));

    let mut run = Calls::begin(set_dns_static(7, Family::V6, &vec![]));
    assert!(run.next().is_some());
    run.made(Ok(()));
    assert!(run.next().is_none());
    assert_eq!((run.done, run.outcome()), (1, Ok(())));
}

#[test]
fn tunnels_are_added_in_their_place() {
    let all = vec![
        adapter(1, "wg0", "WireGuard Tunnel"),
        adapter(2, "Ethernet", "Realtek PCIe GbE"),
        adapter(3, "vEthernet", "Hyper-V Virtual Ethernet Adapter"),
        Adapter { up: false, ..adapter(4, "wg1", "WireGuard Tunnel") },
        adapter(5, "Wi-Fi", "Intel Wi-Fi 6"),
        adapter(6, "wg2", "WireGuard Tunnel"),
    ];
    let indices = |vpn: bool| -> Vec<u32> {
        select_adapters(&all, vpn).chosen.iter().map(|a| a.index).collect()
    };
    assert_eq!(indices(false), vec![2, 5]);
    assert_eq!(indices(true), vec![1, 2, 5, 6]);
}

#[test]
fn windows_is_asked_five_times_for_the_adapters() {
    assert!(matches!(listed(4, 0), Listing::Done));
    assert!(matches!(listed(0, 111), Listing::Again));
    assert!(matches!(listed(3, 111), Listing::Again));
    match listed(4, 111) {
        Listing::Failed(e) => assert_eq!(e, "GetAdaptersAddresses kept asking for a bigger buffer"),
        other => panic!("{other:?}"),
    }
    match listed(0, 87) {
        Listing::Failed(e) => assert_eq!(e, "GetAdaptersAddresses failed with code 87"),
        other => panic!("{other:?}"),
    }
}
