use dns_ai::addr::{IpAddr, Ipv4Addr};
use dns_ai::dnsmsg::{build_query, TYPE_A, TYPE_AAAA};
use dns_ai::endpoints::{Adoption, Endpoints};
use dns_ai::iptext::socket_text;
use dns_ai::rescue::{
    add_chunk, manifest, manifest_addrs, readable, Lookup, ManifestError, Search, Stage, Want, MAX_BODY,
};

/// An answer with one A record.
fn a_reply(ip: [u8; 4]) -> Vec<u8> {
    let mut m = build_query("dns.dns-ai.ru", TYPE_A, 7).unwrap();
    m[2] = 0x81;
    m[3] = 0x80;
    m[7] = 1;
    m.extend_from_slice(&[0xc0, 0x0c, 0, 1, 0, 1, 0, 0, 0, 60, 0, 4]);
    m.extend_from_slice(&ip);
    m
}

#[test]
fn public_resolvers_are_asked_in_turn_until_one_knows() {
    let mut l = Lookup::new();
    assert_eq!(l.next(), Some("https://8.8.8.8/dns-query"));
    l.answered(None);
    assert!(!l.reached);
    assert_eq!(l.next(), Some("https://9.9.9.9/dns-query"));
    let reply = a_reply([45, 9, 113, 9]);
    l.answered(Some(&reply));
    assert!(l.reached);
    assert_eq!(l.found, vec![IpAddr::V4(Ipv4Addr::new(45, 9, 113, 9))]);
    assert_eq!(l.next(), None);
}

#[test]
fn a_lookup_ends_after_the_last_resolver() {
    let mut l = Lookup::new();
    l.answered(None);
    l.answered(None);
    assert_eq!(l.next(), Some("https://1.1.1.1/dns-query"));
    l.answered(None);
    assert_eq!(l.next(), None);
    assert!(!l.reached && l.found.is_empty());
}

fn found(ip: [u8; 4]) -> Lookup {
    let mut l = Lookup::new();
    let reply = a_reply(ip);
    l.answered(Some(&reply));
    l
}

#[test]
fn news_from_the_public_resolvers_end_the_search() {
    let mut e = Endpoints::default();
    let mut s = Search::start(false);
    assert_eq!(s.wants(), Want::Lookup(TYPE_A));
    s.looked_up_v4(found([45, 9, 113, 9]));
    assert_eq!(s.wants(), Want::Lookup(TYPE_AAAA));
    assert_eq!(s.looked_up_v6(&mut e, Lookup::new(), 100), Adoption::Changed);
    assert_eq!(s.wants(), Want::Nothing);
    assert!(s.changed && s.reached);
    assert_eq!(e.source, "public-dns");
    assert_eq!(e.v4, vec![Ipv4Addr::new(45, 9, 113, 9)]);
}

#[test]
fn a_full_search_goes_on_to_the_published_lists() {
    let mut e = Endpoints::default();
    let mut s = Search::start(true);
    s.looked_up_v4(found([45, 9, 113, 9]));
    s.looked_up_v6(&mut e, Lookup::new(), 100);
    assert_eq!(s.wants(), Want::Fetch(0));
    let list = Endpoints { serial: 3, v4: vec![Ipv4Addr::new(45, 9, 113, 10)], ..Default::default() };
    assert_eq!(s.fetched(&mut e, list, 101), Adoption::Changed);
    assert_eq!(s.stage, Stage::Over);
    assert_eq!(e.serial, 3);
}

#[test]
fn a_search_that_finds_nothing_tries_both_lists_and_gives_the_time_back() {
    let mut e = Endpoints { last_rescue_at: 10_000, ..Default::default() };
    let mut s = Search::start(false);
    s.looked_up_v4(Lookup::new());
    assert_eq!(s.looked_up_v6(&mut e, Lookup::new(), 10_000), Adoption::Refused);
    assert_eq!(s.wants(), Want::Fetch(0));
    s.not_fetched(&mut e, false, 10_000);
    assert_eq!(s.wants(), Want::Fetch(1));
    s.not_fetched(&mut e, false, 10_000);
    assert_eq!(s.wants(), Want::Nothing);
    assert!(!s.changed && !s.reached);
    assert!(e.last_rescue_at < 10_000);
}

#[test]
fn the_published_lists() {
    assert_eq!(
        manifest(0),
        (
            "raw.githubusercontent.com",
            "https://raw.githubusercontent.com/confeden/DNS-AI/main/endpoints.json",
        )
    );
    assert_eq!(manifest(1), ("dns-ai.ru", "https://dns-ai.ru/endpoints.json"));
}

#[test]
fn a_list_is_fetched_from_the_addresses_that_were_found() {
    let at = manifest_addrs(&vec![IpAddr::V4(Ipv4Addr::new(185, 199, 108, 133))]).unwrap();
    assert_eq!(at.iter().map(socket_text).collect::<Vec<_>>(), vec!["185.199.108.133:443"]);
    let none = manifest_addrs(&vec![]).unwrap_err();
    assert_eq!(none, ManifestError::NoAddress);
    assert_eq!(
        none.message("dns-ai.ru"),
        "dns-ai.ru did not resolve through any public resolver"
    );
}

#[test]
fn a_body_that_is_too_long_is_refused() {
    let mut body = vec![0u8; MAX_BODY - 1];
    assert!(add_chunk(&mut body, &[1]).is_ok());
    assert_eq!(body.len(), MAX_BODY);
    assert_eq!(add_chunk(&mut body, &[1]), Err(ManifestError::TooLarge));
    assert_eq!(
        ManifestError::TooLarge.message(""),
        "the file is larger than 65536 bytes"
    );
}

#[test]
fn a_newer_form_is_refused() {
    let newer = readable(Endpoints { v: 2, ..Default::default() }).unwrap_err();
    assert_eq!(newer, ManifestError::Format(2));
    assert!(newer.message("").starts_with("the file is format v2"));
    assert!(readable(Endpoints { v: 1, v4: vec![Ipv4Addr::new(45, 9, 113, 9)], ..Default::default() }).is_ok());
}
