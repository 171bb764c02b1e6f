use dns_ai::addr::{usable_v4, usable_v6, IpAddr, Ipv4Addr, Ipv6Addr};
use dns_ai::config::{resolver_ips, resolver_ipv6};
use dns_ai::endpoints::{
    accepted, adopt_addresses, adopt_manifest, candidates, claim_rescue, effective_v4, effective_v6,
    known_addresses, learn, push_unique, relax_cooldown, remember_retired, same_set, sanitised,
    strip_bom, usable_only, Adoption, Endpoints, MAX_ADDRS, MAX_RETIRED, RESCUE_COOLDOWN_SECS,
};
use dns_ai::iptext::{parse_v4, parse_v6, socket_text};

fn ip4(s: &str) -> Ipv4Addr {
    parse_v4(s).unwrap()
}

fn ip6(s: &str) -> Ipv6Addr {
    parse_v6(s).unwrap()
}

#[test]
fn non_global_addresses_are_refused() {
    // The one that matters: a manifest that points the stub back at itself.
    assert!(!usable_v4(&ip4("127.0.0.1")));
    assert!(!usable_v4(&ip4("0.0.0.0")));
    assert!(!usable_v4(&ip4("192.168.1.1")));
    assert!(!usable_v4(&ip4("10.0.0.1")));
    assert!(!usable_v4(&ip4("169.254.1.1")));
    assert!(!usable_v4(&ip4("100.64.0.1")));
    assert!(!usable_v4(&ip4("224.0.0.1")));
    assert!(!usable_v4(&ip4("255.255.255.255")));
    assert!(usable_v4(&ip4("192.144.59.14")));

    assert!(!usable_v6(&ip6("::1")));
    assert!(!usable_v6(&ip6("fe80::1")));
    assert!(!usable_v6(&ip6("fd00::1")));
    assert!(usable_v6(&ip6("2a0d:8480:0:67c::14")));
}

/// A file saved as "UTF-8" by any Windows editor starts with a BOM, and `serde_json` refuses
/// it at the first column — which reads as a manifest nobody published.
#[test]
fn a_byte_order_mark_does_not_hide_the_file() {
    let text = "\u{feff}{\"v\":1,\"serial\":3}";
    let parsed: serde_json::Value = serde_json::from_str(&strip_bom(text)).expect("parses");
    assert_eq!(parsed["serial"], 3);
    assert!(
        serde_json::from_str::<serde_json::Value>(text).is_err(),
        "and it would not have"
    );
}

/// The failure this design exists to prevent: an address the client learned, and later stopped
/// being told about, must still be recognised as ours. Only the compiled-in pair is remembered
/// for free — a node added after the build and then removed lives in no constant anywhere.
#[test]
fn an_address_that_leaves_the_list_is_retired_not_forgotten() {
    let old = IpAddr::V4(ip4("217.60.10.20"));
    let mut retired = vec![old];

    remember_retired(&mut retired, &vec![IpAddr::V4(ip4("203.0.113.9"))]);
    assert!(retired.contains(&old), "nothing is ever taken out");
    assert!(retired.contains(&IpAddr::V4(ip4("203.0.113.9"))));

    remember_retired(&mut retired, &vec![IpAddr::V4(ip4("203.0.113.9"))]);
    assert_eq!(retired.len(), 2, "and nothing is added twice");

    // Bounded for the life of an installation, and the oldest is what falls off.
    let many: Vec<IpAddr> = (0..MAX_RETIRED as u8 + 5)
        .map(|i| IpAddr::V4(Ipv4Addr::new(203, 0, 113, i + 20)))
        .collect();
    remember_retired(&mut retired, &many);
    assert_eq!(retired.len(), MAX_RETIRED);
    assert!(!retired.contains(&old));
}

/// Measured against the live resolver: two lookups 250 ms apart returned the same pair in
/// different orders, and the first version of this called that a migration both times.
#[test]
fn a_rotated_record_is_not_a_new_address_list() {
    let a = vec![ip4("192.144.59.14"), ip4("186.246.49.127")];
    let b = vec![ip4("186.246.49.127"), ip4("192.144.59.14")];
    assert!(same_set(&a, &b));
    assert!(!same_set(&a, &vec![ip4("192.144.59.14")]));
    assert!(!same_set(&a, &vec![ip4("192.144.59.14"), ip4("203.0.113.9")]));
}

#[test]
fn sanitise_drops_junk_and_caps_lists() {
    let e = sanitised(Endpoints {
        v4: vec![ip4("127.0.0.1"), ip4("192.144.59.14")],
        retired: vec![IpAddr::V4(ip4("10.1.2.3")), IpAddr::V4(ip4("217.60.10.20"))],
        notice: "x".repeat(900),
        ..Default::default()
    });
    assert_eq!(e.v4, vec![ip4("192.144.59.14")]);
    assert_eq!(e.retired, vec![IpAddr::V4(ip4("217.60.10.20"))]);
    assert_eq!(e.notice.len(), 500);
}

/// `String::truncate` panics on a cut that is not a character boundary, and a `notice` written
/// in Russian is two bytes a letter — so the cap would have panicked the service on roughly
/// every other over-long message.
#[test]
fn a_long_russian_notice_is_clipped_not_split() {
    let e = sanitised(Endpoints {
        v4: vec![ip4("192.144.59.14")],
        notice: "я".repeat(400), // 800 bytes, every boundary odd-numbered
        ..Default::default()
    });
    assert!(e.notice.len() <= 500);
    assert_eq!(e.notice.len() % 2, 0, "clipped between characters");
    assert!(e.notice.chars().all(|c| c == 'я'));
}

/// The property the whole design rests on: whatever arrives from the network, the addresses
/// this build shipped with are still in the list.
#[test]
fn built_ins_survive_any_manifest() {
    let hostile = Endpoints {
        v4: vec![ip4("203.0.113.9")],
        retired: resolver_ips().iter().map(|ip| IpAddr::V4(*ip)).collect(),
        ..Default::default()
    };
    // The ordering itself, step by step.
    let mut v4: Vec<Ipv4Addr> = Vec::new();
    for ip in &hostile.v4 {
        push_unique(&mut v4, *ip);
    }
    let retired = |ip: &Ipv4Addr| hostile.retired.contains(&IpAddr::V4(*ip));
    for ip in resolver_ips().iter().filter(|ip| !retired(ip)) {
        push_unique(&mut v4, *ip);
    }
    for ip in resolver_ips().iter().filter(|ip| retired(ip)) {
        push_unique(&mut v4, *ip);
    }
    for built_in in resolver_ips() {
        assert!(v4.contains(&built_in), "{built_in:?} must remain reachable");
    }
    assert_eq!(v4[0], ip4("203.0.113.9"), "what we learned is tried first");

    // And the list that a connection is made from.
    let all = candidates(&hostile);
    for built_in in resolver_ips() {
        assert!(all.iter().any(|a| a.ip == IpAddr::V4(built_in) && a.port == 443));
    }
    assert_eq!(all[0].ip, IpAddr::V4(ip4("203.0.113.9")));
}

#[test]
fn a_list_with_too_many_addresses_is_cut() {
    let many: Vec<Ipv4Addr> = (1..=20).map(|i| Ipv4Addr::new(203, 0, 114, i)).collect();
    let kept = usable_only(&many, MAX_ADDRS);
    assert_eq!(kept, many[..8].to_vec());
}

#[test]
fn only_a_known_form_is_accepted() {
    let newer = Endpoints { v: 2, ..Default::default() };
    assert!(accepted(newer).is_none());
    let known = Endpoints { v: 1, v4: vec![ip4("10.0.0.1"), ip4("45.9.113.9")], ..Default::default() };
    assert_eq!(accepted(known).unwrap().v4, vec![ip4("45.9.113.9")]);
}

#[test]
fn candidates_come_in_order_without_repetition() {
    let e = Endpoints {
        v4: vec![ip4("45.9.113.9"), ip4("192.144.59.14")],
        v6: vec![ip6("2a0d:8480:0:67c::99")],
        retired: vec![IpAddr::V4(ip4("45.9.113.200"))],
        ..Default::default()
    };
    let all: Vec<String> = candidates(&e).iter().map(socket_text).collect();
    assert_eq!(
        all,
        vec![
            "45.9.113.9:443",
            "192.144.59.14:443",
            "186.246.49.127:443",
            "[2a0d:8480:0:67c::99]:443",
            "[2a0d:8480:0:67c::14]:443",
            "[2a0a:2b41:0:500d::53]:443",
        ]
    );
}

#[test]
fn what_is_learned_replaces_the_built_in_lists() {
    let none = Endpoints::default();
    assert_eq!(effective_v4(&none), resolver_ips());
    assert_eq!(effective_v6(&none), resolver_ipv6());
    let some = Endpoints {
        v4: vec![ip4("45.9.113.9")],
        v6: vec![ip6("2a0d:8480:0:67c::99")],
        ..Default::default()
    };
    assert_eq!(effective_v4(&some), vec![ip4("45.9.113.9")]);
    assert_eq!(effective_v6(&some), vec![ip6("2a0d:8480:0:67c::99")]);
}

#[test]
fn known_addresses_hold_built_in_learned_and_retired_ones() {
    let e = Endpoints {
        v4: vec![ip4("45.9.113.9")],
        retired: vec![IpAddr::V4(ip4("217.60.10.20"))],
        ..Default::default()
    };
    let known = known_addresses(&e);
    assert!(known.contains(&IpAddr::V4(ip4("45.9.113.9"))));
    assert!(known.contains(&IpAddr::V4(ip4("217.60.10.20"))));
    for ip in resolver_ips() {
        assert!(known.contains(&IpAddr::V4(ip)));
    }
    for ip in resolver_ipv6() {
        assert!(known.contains(&IpAddr::V6(ip)));
    }
}

#[test]
fn an_answer_without_usable_addresses_changes_nothing() {
    let mut e = Endpoints { v4: vec![ip4("45.9.113.9")], ..Default::default() };
    assert_eq!(learn(&mut e, &vec![ip4("127.0.0.1")], &vec![], 50), Adoption::Refused);
    assert_eq!(e.v4, vec![ip4("45.9.113.9")]);
    assert_eq!(e.checked_at, 0);
}

#[test]
fn an_empty_ipv6_answer_keeps_the_ipv6_list() {
    let mut e = Endpoints {
        v4: vec![ip4("45.9.113.9")],
        v6: vec![ip6("2a0d:8480:0:67c::99")],
        ..Default::default()
    };
    assert_eq!(learn(&mut e, &vec![ip4("45.9.113.10")], &vec![], 7), Adoption::Changed);
    assert_eq!(e.v4, vec![ip4("45.9.113.10")]);
    assert_eq!(e.v6, vec![ip6("2a0d:8480:0:67c::99")]);
    assert!(e.retired.contains(&IpAddr::V4(ip4("45.9.113.9"))));
    assert_eq!(e.checked_at, 7);
}

#[test]
fn learning_the_same_twice_is_no_news() {
    let mut e = Endpoints::default();
    let v4 = vec![ip4("45.9.113.9"), ip4("45.9.113.10")];
    let turned = vec![ip4("45.9.113.10"), ip4("45.9.113.9")];
    assert_eq!(learn(&mut e, &v4, &vec![], 1), Adoption::Changed);
    assert_eq!(learn(&mut e, &turned, &vec![], 2), Adoption::Same);
    assert_eq!(e.checked_at, 2);
    assert!(!Adoption::Same.changed() && Adoption::Changed.changed());
}

#[test]
fn addresses_carry_the_name_of_their_source() {
    let mut e = Endpoints::default();
    adopt_addresses(&mut e, &vec![ip4("45.9.113.9")], &vec![], "public-dns", 9);
    assert_eq!(e.source, "public-dns");
}

#[test]
fn an_older_manifest_is_refused() {
    let mut e = Endpoints { serial: 5, ..Default::default() };
    let older = Endpoints { serial: 4, v4: vec![ip4("45.9.113.9")], ..Default::default() };
    assert_eq!(adopt_manifest(&mut e, older, 1), Adoption::Refused);
    assert_eq!(e.serial, 5);
    let newer = Endpoints { serial: 6, v4: vec![ip4("45.9.113.9")], ..Default::default() };
    assert_eq!(adopt_manifest(&mut e, newer, 2), Adoption::Changed);
    assert_eq!((e.serial, e.v4), (6, vec![ip4("45.9.113.9")]));
}

#[test]
fn the_outside_world_is_asked_once_in_half_an_hour() {
    let mut e = Endpoints::default();
    assert!(claim_rescue(&mut e, 10_000));
    assert!(!claim_rescue(&mut e, 10_000 + RESCUE_COOLDOWN_SECS - 1));
    assert!(claim_rescue(&mut e, 10_000 + RESCUE_COOLDOWN_SECS));
}

#[test]
fn a_search_that_reached_nobody_may_be_repeated_soon() {
    let mut e = Endpoints::default();
    assert!(claim_rescue(&mut e, 10_000));
    relax_cooldown(&mut e, 10_000);
    assert!(!claim_rescue(&mut e, 10_059));
    assert!(claim_rescue(&mut e, 10_060));
}

#[test]
fn blocks_for_protocols_and_benchmarks_are_refused() {
    assert!(!usable_v4(&ip4("198.18.0.1")));
    assert!(!usable_v4(&ip4("198.19.255.1")));
    assert!(!usable_v4(&ip4("192.0.0.8")));
    assert!(!usable_v4(&ip4("192.0.0.255")));
    assert!(usable_v4(&ip4("198.17.255.255")) && usable_v4(&ip4("198.20.0.0")));
    assert!(usable_v4(&ip4("192.0.1.0")) && usable_v4(&ip4("192.1.0.8")));
    let mut e = Endpoints::default();
    assert_eq!(learn(&mut e, &vec![ip4("198.18.0.1")], &vec![], 1), Adoption::Refused);
}

#[test]
fn a_list_that_names_an_address_twice_is_not_the_list_of_two() {
    let twice = vec![ip4("192.144.59.14"), ip4("192.144.59.14")];
    let two = vec![ip4("192.144.59.14"), ip4("203.0.113.9")];
    assert!(!same_set(&twice, &two) && !same_set(&two, &twice));
    assert!(same_set(&twice, &twice));
    let built_in = resolver_ips();
    let manifest = Endpoints {
        serial: 1,
        v4: vec![built_in[0], built_in[0]],
        v6: resolver_ipv6(),
        ..Default::default()
    };
    let mut e = Endpoints::default();
    assert_eq!(adopt_manifest(&mut e, manifest, 3), Adoption::Changed);
    let whole = Endpoints { serial: 1, v4: resolver_ips(), v6: resolver_ipv6(), ..Default::default() };
    assert_eq!(adopt_manifest(&mut Endpoints::default(), whole, 3), Adoption::Same);
}

#[test]
fn a_retired_built_in_address_is_tried_last() {
    let e = Endpoints {
        v4: vec![ip4("45.9.113.9")],
        retired: vec![IpAddr::V4(resolver_ips()[0])],
        ..Default::default()
    };
    let all: Vec<IpAddr> = candidates(&e).iter().map(|a| a.ip).collect();
    assert_eq!(
        all[..3],
        [
            IpAddr::V4(ip4("45.9.113.9")),
            IpAddr::V4(resolver_ips()[1]),
            IpAddr::V4(resolver_ips()[0]),
        ]
    );
}
