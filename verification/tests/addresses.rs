use dns_ai::addr::{IpAddr, Ipv4Addr, Ipv6Addr, SocketAddr};
use dns_ai::config::{
    bootstrap_addrs, is_resolver_address, recommended_mode, resolver_ips_text, resolver_ipv6_text,
    Mode, Settings,
};
use dns_ai::endpoints::Endpoints;
use dns_ai::iptext::{ip_text, parse_ip, parse_v4, parse_v6, socket_text, v4_text, v6_text};

#[test]
fn ipv4_is_read_as_four_numbers_without_leading_zeros() {
    assert_eq!(parse_v4("1.2.3.4"), Some(Ipv4Addr::new(1, 2, 3, 4)));
    assert_eq!(parse_v4("255.255.255.255"), Some(Ipv4Addr::new(255, 255, 255, 255)));
    assert_eq!(parse_v4("0.0.0.0"), Some(Ipv4Addr::new(0, 0, 0, 0)));
    for bad in ["", "1.2.3", "1.2.3.4.5", "01.2.3.4", "256.1.1.1", "1.2.3.4 ", "1..3.4", "a.b.c.d", "+1.2.3.4"] {
        assert!(parse_v4(bad).is_none(), "{bad:?}");
    }
}

#[test]
fn ipv6_is_read_in_all_its_forms() {
    assert_eq!(parse_v6("::"), Some(Ipv6Addr::new(0, 0, 0, 0, 0, 0, 0, 0)));
    assert_eq!(parse_v6("::1"), Some(Ipv6Addr::new(0, 0, 0, 0, 0, 0, 0, 1)));
    assert_eq!(parse_v6("1::"), Some(Ipv6Addr::new(1, 0, 0, 0, 0, 0, 0, 0)));
    assert_eq!(
        parse_v6("2A0D:8480:0000:067C:0000:0000:0000:0014"),
        Some(Ipv6Addr::new(0x2a0d, 0x8480, 0, 0x67c, 0, 0, 0, 0x14))
    );
    assert_eq!(
        parse_v6("::ffff:1.2.3.4"),
        Some(Ipv6Addr::new(0, 0, 0, 0, 0, 0xffff, 0x0102, 0x0304))
    );
    for bad in ["", ":", ":::", "1:2:3:4:5:6:7", "1:2:3:4:5:6:7:8:9", "12345::", "::1::", "g::", "1:2:3:4:5:6:7:8::"] {
        assert!(parse_v6(bad).is_none(), "{bad:?}");
    }
}

#[test]
fn an_address_in_any_spelling_is_written_in_one() {
    for (text, written) in [
        ("1.2.3.4", Some("1.2.3.4")),
        ("::", Some("::")),
        ("1::8", Some("1::8")),
        ("1:2:3:4:5:6:7:8", Some("1:2:3:4:5:6:7:8")),
        ("1:2:3:4:5:6:7::", Some("1:2:3:4:5:6:7:0")),
        ("::2:3:4:5:6:7:8", Some("0:2:3:4:5:6:7:8")),
        ("::FFFF:1.2.3.4", Some("::ffff:1.2.3.4")),
        ("64:ff9b::10.0.0.1", Some("64:ff9b::a00:1")),
        ("1:2:3:4:5:6:1.2.3.4", Some("1:2:3:4:5:6:102:304")),
        ("2001:db8::1:0:0:1", Some("2001:db8::1:0:0:1")),
        ("01::", Some("1::")),
        ("1:2:3:4:5:6:7:1.2.3.4", None),
        ("fe80::1%1", None),
        ("00001::", None),
        ("1.2.3.4:5", None),
        ("::1.2.3", None),
        ("::1.2.3.400", None),
        ("1.2.3.4::", None),
    ] {
        let ours = parse_ip(text).map(|ip| ip_text(&ip));
        assert_eq!(ours.as_deref(), written, "{text:?}");
    }
}

#[test]
fn the_longest_run_of_zeros_is_left_out() {
    assert_eq!(v4_text(&Ipv4Addr::new(192, 144, 59, 14)), "192.144.59.14");
    for (groups, written) in [
        ([0u16, 0, 0, 0, 0, 0, 0, 0], "::"),
        ([0, 0, 0, 0, 0, 0, 0, 1], "::1"),
        ([1, 0, 0, 0, 0, 0, 0, 0], "1::"),
        ([0x2001, 0xdb8, 0, 0, 1, 0, 0, 1], "2001:db8::1:0:0:1"),
        ([0x2001, 0xdb8, 0, 1, 1, 1, 1, 1], "2001:db8:0:1:1:1:1:1"),
        ([1, 0, 0, 2, 0, 0, 0, 3], "1:0:0:2::3"),
        ([0, 0, 0, 0, 0, 0xffff, 0x0102, 0x0304], "::ffff:1.2.3.4"),
        ([0xfe80, 0, 0, 0, 0xabcd, 0, 0, 0xf], "fe80::abcd:0:0:f"),
        ([1, 2, 3, 4, 5, 6, 7, 8], "1:2:3:4:5:6:7:8"),
    ] {
        let [a, b, c, d, e, f, g, h] = groups;
        assert_eq!(v6_text(&Ipv6Addr::new(a, b, c, d, e, f, g, h)), written);
    }
}

#[test]
fn a_written_address_reads_back() {
    let ip = Ipv6Addr::new(0x2a0a, 0x2b41, 0, 0x500d, 0, 0, 0, 0x53);
    assert_eq!(v6_text(&ip), "2a0a:2b41:0:500d::53");
    assert_eq!(parse_ip(&v6_text(&ip)), Some(IpAddr::V6(ip)));
    assert_eq!(ip.to_vec(), vec![0x2a0a, 0x2b41, 0, 0x500d, 0, 0, 0, 0x53]);
}

#[test]
fn a_port_stands_behind_the_address() {
    let v4 = SocketAddr { ip: IpAddr::V4(Ipv4Addr::new(1, 2, 3, 4)), port: 443 };
    let v6 = SocketAddr { ip: IpAddr::V6(Ipv6Addr::new(0, 0, 0, 0, 0, 0, 0, 1)), port: 53 };
    assert_eq!(socket_text(&v4), "1.2.3.4:443");
    assert_eq!(socket_text(&v6), "[::1]:53");
}

#[test]
fn the_built_in_addresses() {
    assert_eq!(resolver_ips_text(), vec!["192.144.59.14", "186.246.49.127"]);
    assert_eq!(resolver_ipv6_text(), vec!["2a0d:8480:0:67c::14", "2a0a:2b41:0:500d::53"]);
    let all: Vec<String> = bootstrap_addrs().iter().map(socket_text).collect();
    assert_eq!(
        all,
        vec![
            "192.144.59.14:443",
            "186.246.49.127:443",
            "[2a0d:8480:0:67c::14]:443",
            "[2a0a:2b41:0:500d::53]:443",
        ]
    );
}

#[test]
fn the_mode_follows_the_windows_version() {
    assert_eq!(recommended_mode(21_999), Mode::Stub);
    assert_eq!(recommended_mode(22_000), Mode::Native);
    assert_eq!(Settings::recommended(22_000).mode, Mode::Native);
    assert_eq!(Settings::loaded(None, 19_045).mode, Mode::Stub);
    let mut chosen = Settings::default();
    chosen.ipv6 = false;
    assert_eq!(Settings::loaded(Some(chosen), 22_000), chosen);
}

#[test]
fn a_learned_address_is_the_resolvers() {
    let learned = Ipv4Addr::new(203, 0, 113, 9);
    let mut e = Endpoints::default();
    assert!(!is_resolver_address(&e, &IpAddr::V4(learned)));
    e.v4 = vec![learned];
    assert!(is_resolver_address(&e, &IpAddr::V4(learned)));
    assert!(is_resolver_address(&e, &IpAddr::V4(Ipv4Addr::new(192, 144, 59, 14))));
}
