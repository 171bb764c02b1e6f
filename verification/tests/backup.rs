use dns_ai::backup::{is_ours, not_ours, AdapterBackup, DnsBackup, Reading};
use dns_ai::config::{self, ADAPTER_DNS_V4, ADAPTER_DNS_V6};
use dns_ai::endpoints::{learn, Endpoints};
use dns_ai::addr::{IpAddr, Ipv4Addr};
use dns_ai::netif::{Adapter, DnsState};

fn nothing_learned() -> Endpoints {
    Endpoints::default()
}

/// The rule that keeps a machine restorable: what we wrote is never mistaken for what we
/// found. Both modes are covered, because the second one was the gap — loopback was refused
/// from the start, the resolver's own addresses were not, and those are what native mode
/// writes into every adapter.
#[test]
fn our_own_addresses_are_not_a_previous_configuration() {
    let e = nothing_learned();
    let stub = DnsState::Static(vec![ADAPTER_DNS_V4.to_string(), ADAPTER_DNS_V6.to_string()]);
    assert!(matches!(not_ours(stub, &e), DnsState::Dhcp));

    let native = DnsState::Static(config::resolver_ips_text());
    assert!(matches!(not_ours(native, &e), DnsState::Dhcp));

    let native_v6 = DnsState::Static(config::resolver_ipv6_text());
    assert!(matches!(not_ours(native_v6, &e), DnsState::Dhcp));
}

/// The other half, and the more important one: a real setting must survive being read. A list
/// that merely CONTAINS one of ours is still the user's own — we never write a mixed list, so
/// somebody put it together by hand and restoring it means restoring all of it.
#[test]
fn somebody_elses_configuration_survives() {
    let e = nothing_learned();
    let theirs = DnsState::Static(vec!["1.1.1.1".into(), "8.8.8.8".into()]);
    assert!(matches!(not_ours(theirs, &e), DnsState::Static(_)));

    let mixed = DnsState::Static(vec!["1.1.1.1".into(), ADAPTER_DNS_V4.to_string()]);
    assert!(matches!(not_ours(mixed, &e), DnsState::Static(_)));

    assert!(matches!(not_ours(DnsState::Dhcp, &e), DnsState::Dhcp));
}

/// A written v6 address does not have to be spelled the way the file spells it: `2a0d:8480:0:67c::14`
/// and `2A0D:8480:0000:067C::0014` are one address, and a comparison on the text would say they
/// are two.
#[test]
fn addresses_are_compared_as_addresses_not_as_text() {
    let e = nothing_learned();
    assert!(is_ours("2A0D:8480:0000:067C:0000:0000:0000:0014", &e));
    assert!(!is_ours("2a0d:8480:0:67c::15", &e));
}

fn servers(state: &DnsState) -> Option<Vec<String>> {
    match state {
        DnsState::Dhcp => None,
        DnsState::Static(v) => Some(v.clone()),
    }
}

fn adapter(index: u32, guid: &str) -> Adapter {
    Adapter {
        index,
        ipv6_index: index,
        guid: guid.to_string(),
        alias: format!("Ethernet {index}"),
        description: "Realtek PCIe GbE Family Controller".to_string(),
        if_type: 6,
        up: true,
        gateway_v4: true,
        gateway_v6: false,
    }
}

fn reading(index: u32, guid: &str, v4: DnsState) -> Reading {
    Reading { adapter: adapter(index, guid), v4, v6: DnsState::Dhcp }
}

#[test]
fn an_empty_list_is_a_setting_of_its_own() {
    let e = nothing_learned();
    assert_eq!(servers(&not_ours(DnsState::Static(vec![]), &e)), Some(vec![]));
}

#[test]
fn an_address_that_was_learned_and_retired_is_still_ours() {
    let mut e = nothing_learned();
    assert!(!is_ours("217.60.10.20", &e));
    learn(&mut e, &vec![Ipv4Addr::new(217, 60, 10, 20)], &vec![], 5);
    assert!(is_ours("217.60.10.20", &e));
    learn(&mut e, &vec![Ipv4Addr::new(192, 144, 59, 14)], &vec![], 6);
    assert_eq!(e.retired, vec![IpAddr::V4(Ipv4Addr::new(217, 60, 10, 20))]);
    assert!(is_ours("217.60.10.20", &e));
    assert!(matches!(
        not_ours(DnsState::Static(vec!["217.60.10.20".into()]), &e),
        DnsState::Dhcp
    ));
}

#[test]
fn capture_records_what_was_read() {
    let e = nothing_learned();
    let b = DnsBackup::capture(
        &vec![
            reading(3, "{A}", DnsState::Static(vec!["9.9.9.9".into()])),
            reading(4, "{B}", DnsState::Static(vec!["127.0.0.1".into()])),
        ],
        &e,
        77,
    );
    assert_eq!(b.created_unix, 77);
    assert!(b.doh_added.is_empty());
    assert_eq!(b.adapters.len(), 2);
    assert_eq!(b.adapters[0].index, 3);
    assert_eq!(servers(&b.adapters[0].v4), Some(vec!["9.9.9.9".to_string()]));
    assert_eq!(servers(&b.adapters[1].v4), None);
}

#[test]
fn an_earlier_record_wins_and_none_is_lost() {
    let e = nothing_learned();
    let mut first = DnsBackup::capture(
        &vec![
            reading(3, "{abc}", DnsState::Static(vec!["9.9.9.9".into()])),
            reading(4, "{gone}", DnsState::Static(vec!["8.8.8.8".into()])),
        ],
        &e,
        77,
    );
    first.doh_added = vec!["192.144.59.14".to_string()];
    let again = DnsBackup::capture_preserving(
        &vec![
            reading(5, "{ABC}", DnsState::Static(vec!["1.1.1.1".into()])),
            reading(6, "{new}", DnsState::Static(vec!["1.0.0.1".into()])),
        ],
        Some(first),
        &e,
        99,
    );
    assert_eq!(again.created_unix, 77);
    assert_eq!(again.doh_added, vec!["192.144.59.14".to_string()]);
    let rows: Vec<(u32, &str, Option<Vec<String>>)> = again
        .adapters
        .iter()
        .map(|a| (a.index, a.guid.as_str(), servers(&a.v4)))
        .collect();
    assert_eq!(
        rows,
        vec![
            (5, "{ABC}", Some(vec!["9.9.9.9".to_string()])),
            (6, "{new}", Some(vec!["1.0.0.1".to_string()])),
            (4, "{gone}", Some(vec!["8.8.8.8".to_string()])),
        ]
    );
    assert_eq!((again.adapters[0].ipv6_index, again.adapters[0].alias.as_str()), (5, "Ethernet 5"));
    let fresh = DnsBackup::capture_preserving(&vec![], None, &e, 99);
    assert_eq!((fresh.created_unix, fresh.adapters.len()), (99, 0));
}

#[test]
fn a_checked_record_holds_addresses_only() {
    let row = AdapterBackup {
        index: 1,
        ipv6_index: 2,
        guid: "{A}".into(),
        alias: "a".into(),
        v4: DnsState::Static(vec!["8.8.8.8".into(), "8.8.8.8 & calc".into(), "08.8.8.8".into()]),
        v6: DnsState::Static(vec!["2A0D:8480:0000:067C:0:0:0:0014".into(), "x".into()]),
    };
    let (clean, dropped) = row.sanitised();
    assert_eq!(servers(&clean.v4), Some(vec!["8.8.8.8".to_string()]));
    assert_eq!(servers(&clean.v6), Some(vec!["2a0d:8480:0:67c::14".to_string()]));
    assert_eq!(dropped, vec!["IPv4: 8.8.8.8 & calc", "IPv4: 08.8.8.8", "IPv6: x"]);
    assert_eq!((clean.index, clean.ipv6_index, clean.guid.as_str()), (1, 2, "{A}"));
    let (same, nothing) = clean.sanitised();
    assert_eq!(servers(&same.v4), servers(&clean.v4));
    assert!(nothing.is_empty());
}

#[test]
fn this_machine_is_ours_however_it_is_spelled() {
    let e = nothing_learned();
    for server in ["127.0.0.1", "::1", "0:0:0:0:0:0:0:1", "0000::0001"] {
        assert!(is_ours(server, &e), "{server}");
    }
    for server in ["127.0.0.2", "::", "::2", "localhost", "", "::ffff:127.0.0.1"] {
        assert!(!is_ours(server, &e), "{server}");
    }
    assert!(matches!(
        not_ours(DnsState::Static(vec!["0:0:0:0:0:0:0:1".into()]), &e),
        DnsState::Dhcp
    ));
}
