use dns_ai::addr::{IpAddr, Ipv4Addr, Ipv6Addr, SocketAddr};
use dns_ai::endpoints::Endpoints;
use dns_ai::stub::{
    bound, checked_reply, located, refreshed, servfail, settle, sort_addresses, targets,
    tcp_length, tcp_reply, udp_reply, AfterRefresh, Forward, Recovery, ReplyError, Stats, Upstream,
    MAX_UDP,
};

/// A minimal A query for `example.com`, built by hand so the test does not depend on the
/// code under test to produce its own input.
fn sample_query() -> Vec<u8> {
    let mut q = vec![
        0x12, 0x34, // ID
        0x01, 0x00, // RD
        0x00, 0x01, // QDCOUNT
        0x00, 0x00, 0x00, 0x00, 0x00, 0x00,
    ];
    q.extend_from_slice(b"\x07example\x03com\x00");
    q.extend_from_slice(&[0x00, 0x01, 0x00, 0x01]); // A, IN
    q
}

#[test]
fn servfail_echoes_id_and_question() {
    let q = sample_query();
    let r = servfail(&q).expect("a well-formed query gets a SERVFAIL");
    assert_eq!(
        &r[0..2],
        &q[0..2],
        "the ID must come back or the client ignores it"
    );
    assert_eq!(r[2] & 0x80, 0x80, "QR must be set");
    assert_eq!(r[2] & 0x01, 0x01, "RD must be preserved");
    assert_eq!(r[3] & 0x0F, 2, "RCODE must be SERVFAIL");
    assert_eq!(u16::from_be_bytes([r[4], r[5]]), 1);
    assert_eq!(u16::from_be_bytes([r[6], r[7]]), 0, "no answers");
    assert_eq!(r.len(), q.len(), "header plus question, nothing else");
}

#[test]
fn servfail_refuses_garbage() {
    assert!(servfail(&[0u8; 4]).is_none());
    // A compression pointer in the question section is malformed.
    let mut q = sample_query();
    q[12] = 0xC0;
    assert!(servfail(&q).is_none());
}

#[test]
fn servfail_of_a_query_without_one_question_is_a_header() {
    let mut q = sample_query();
    q[5] = 2;
    q[2] = 0x7F;
    assert_eq!(servfail(&q).unwrap(), vec![0x12, 0x34, 0xF9, 0x82, 0, 0, 0, 0, 0, 0, 0, 0]);
}

#[test]
fn servfail_drops_what_stands_behind_the_question() {
    let mut q = sample_query();
    let whole = q.len();
    q[11] = 1;
    q.extend_from_slice(&[0, 0, 41, 16, 0, 0, 0, 0, 0, 0, 0]);
    let r = servfail(&q).unwrap();
    assert_eq!(r.len(), whole);
    assert_eq!(&r[12..], &q[12..whole]);
    assert_eq!(r[11], 0);
    assert!(servfail(&sample_query()[..whole - 1]).is_none());
}

#[test]
fn counters_count_and_wrap() {
    let mut s = Stats::default();
    s.record_query();
    s.record_query();
    s.record_error("no route".to_string());
    assert_eq!(s.snapshot(), (2, 1, Some("no route".to_string())));
    s.queries = u64::MAX;
    s.record_query();
    assert_eq!(s.snapshot().0, 0);
}

#[test]
fn every_fifth_failure_in_a_row_starts_a_search() {
    let mut r = Recovery::new();
    let started: Vec<bool> = (0..5).map(|_| r.failure()).collect();
    assert_eq!(started, vec![false, false, false, false, true]);
    // One search at a time.
    let more: Vec<bool> = (0..5).map(|_| r.failure()).collect();
    assert_eq!(more, vec![false; 5]);
    r.searched(false);
    assert_eq!(r.failures, 10);
    let again: Vec<bool> = (0..5).map(|_| r.failure()).collect();
    assert_eq!(again, vec![false, false, false, false, true]);
    r.searched(true);
    assert_eq!(r, Recovery::new());
    r.failure();
    r.success();
    assert_eq!(r.failures, 0);
    assert!(r.search());
    assert!(!r.search());
}

#[test]
fn a_query_tries_three_routes_from_the_preferred_one() {
    let addrs = vec![
        SocketAddr { ip: IpAddr::V4(Ipv4Addr::new(192, 144, 59, 14)), port: 443 };
        5
    ];
    let mut u = Upstream::build(&addrs).unwrap();
    u.preferred = 4;
    let mut f = u.begin();
    let mut tried = Vec::new();
    while let Some(i) = u.route(&f) {
        tried.push(i);
        u.failed(&mut f);
    }
    assert_eq!(tried, vec![4, 0, 1]);
    assert_eq!(u.preferred, 2, "the next query starts behind the routes that failed");

    let mut f = u.begin();
    assert_eq!(u.route(&f), Some(2));
    u.failed(&mut f);
    assert_eq!(u.route(&f), Some(3));
    u.answered(&f);
    assert_eq!(u.preferred, 3, "the route that answered is tried first");
    let f = u.begin();
    assert_eq!(f, Forward { start: 3, tried: 0 });
    u.answered(&f);
    assert_eq!(u.preferred, 3);
    assert!(Upstream::build(&vec![]).is_none());
}

#[test]
fn a_single_route_is_tried_once() {
    let addrs = vec![SocketAddr { ip: IpAddr::V4(Ipv4Addr::new(192, 144, 59, 14)), port: 443 }];
    let mut u = Upstream::build(&addrs).unwrap();
    let mut f = u.begin();
    assert_eq!(u.route(&f), Some(0));
    u.failed(&mut f);
    assert_eq!(u.route(&f), None);
    assert_eq!(u.preferred, 0);
}

#[test]
fn a_reply_has_to_be_a_success_with_a_header() {
    assert_eq!(checked_reply(200, vec![7; 12]), Ok(vec![7; 12]));
    assert_eq!(checked_reply(299, vec![7; 13]), Ok(vec![7; 13]));
    assert_eq!(checked_reply(404, vec![7; 12]), Err(ReplyError::Http(404)));
    assert_eq!(checked_reply(301, vec![]), Err(ReplyError::Http(301)));
    assert_eq!(checked_reply(200, vec![7; 11]), Err(ReplyError::Short(11)));
    assert_eq!(
        ReplyError::Http(404).message("404 Not Found"),
        "resolver answered HTTP 404 Not Found"
    );
    assert_eq!(
        ReplyError::Short(3).message("200 OK"),
        "resolver answered 3 bytes, too short for DNS"
    );
}

#[test]
fn datagrams_are_cut_at_the_limit() {
    let q = sample_query();
    assert_eq!(udp_reply(&q, Some(vec![1; 10])).unwrap(), vec![1; 10]);
    assert_eq!(udp_reply(&q, Some(vec![1; MAX_UDP + 5])).unwrap(), vec![1; MAX_UDP]);
    assert_eq!(udp_reply(&q, None), servfail(&q));
    assert_eq!(udp_reply(&[], None), None);
}

#[test]
fn messages_on_tcp_carry_their_length() {
    let q = sample_query();
    assert_eq!(tcp_reply(&q, Some(vec![1, 2, 3])).unwrap(), vec![0, 3, 1, 2, 3]);
    let framed = tcp_reply(&q, None).unwrap();
    assert_eq!(tcp_length(framed[0], framed[1]), Some(q.len()));
    assert_eq!(&framed[2..], &servfail(&q).unwrap()[..]);
    assert_eq!(tcp_reply(&[], None), None);
    assert_eq!(tcp_length(0, 0), None);
    assert_eq!(tcp_length(0x12, 0x34), Some(0x1234));
    // A message longer than two bytes can say wraps around.
    assert_eq!(&tcp_reply(&q, Some(vec![9; 65538])).unwrap()[..3], &[0, 2, 9]);
}

#[test]
fn the_outcome_of_a_query_moves_the_counters() {
    let mut s = Stats::default();
    let mut r = Recovery { failures: 4, searching: false };
    assert!(settle(&mut s, &mut r, Some("timeout".to_string())));
    assert_eq!(s.snapshot(), (0, 1, Some("timeout".to_string())));
    assert!(r.searching);
    assert!(!settle(&mut s, &mut r, None));
    assert_eq!(r.failures, 0);
    assert_eq!(s.errors, 1);
}

fn answer(rtype: u16, data: &[u8]) -> Vec<u8> {
    let mut m = sample_query();
    m[7] = 1;
    m.extend_from_slice(&[0xC0, 0x0C]);
    m.extend_from_slice(&rtype.to_be_bytes());
    m.extend_from_slice(&[0, 1, 0, 0, 0, 60]);
    m.extend_from_slice(&(data.len() as u16).to_be_bytes());
    m.extend_from_slice(data);
    m
}

#[test]
fn addresses_are_sorted_by_family_and_named_once() {
    let a = IpAddr::V4(Ipv4Addr::new(192, 144, 59, 14));
    let b = IpAddr::V6(Ipv6Addr::new(0x2a0d, 0x8480, 0, 0x67c, 0, 0, 0, 0x14));
    let (mut v4, mut v6) = (vec![], vec![]);
    sort_addresses(&vec![b, a, a, b], &mut v4, &mut v6);
    assert_eq!(v4, vec![Ipv4Addr::new(192, 144, 59, 14)]);
    assert_eq!(v6.len(), 1);

    let v4_answer = answer(1, &[192, 144, 59, 14]);
    let v6_answer = answer(28, &[0x2a, 0x0d, 0x84, 0x80, 0, 0, 6, 0x7c, 0, 0, 0, 0, 0, 0, 0, 0x14]);
    let (v4, v6) = located(&v4_answer, Some(&v6_answer));
    assert_eq!((v4.len(), v6.len()), (1, 1));
    let (v4, v6) = located(&v4_answer, None);
    assert_eq!((v4.len(), v6.len()), (1, 0));
}

#[test]
fn a_refresh_learns_or_starts_a_search() {
    let mut e = Endpoints::default();
    let mut r = Recovery { failures: 3, searching: false };
    let built_in = vec![Ipv4Addr::new(186, 246, 49, 127), Ipv4Addr::new(192, 144, 59, 14)];
    assert_eq!(
        refreshed(&mut e, &mut r, Some((built_in.clone(), vec![])), 10),
        AfterRefresh::Keep
    );
    assert_eq!((e.source.as_str(), e.checked_at), ("resolver", 10));
    assert_eq!(refreshed(&mut e, &mut r, Some((vec![], vec![])), 11), AfterRefresh::Nothing);
    assert_eq!(e.checked_at, 10);
    assert_eq!(r.failures, 0);
    assert_eq!(e.v4, built_in);
    assert_eq!(
        refreshed(&mut e, &mut r, Some((vec![Ipv4Addr::new(217, 60, 10, 20)], vec![])), 10),
        AfterRefresh::Rebuild
    );
    assert_eq!(refreshed(&mut e, &mut r, None, 10), AfterRefresh::Search);
    assert_eq!(refreshed(&mut e, &mut r, None, 10), AfterRefresh::Nothing);
}

#[test]
fn the_resolver_listens_on_loopback_only() {
    let v4 = SocketAddr { ip: IpAddr::V4(Ipv4Addr::new(127, 0, 0, 1)), port: 53 };
    let v6 = SocketAddr { ip: IpAddr::V6(Ipv6Addr::new(0, 0, 0, 0, 0, 0, 0, 1)), port: 53 };
    assert_eq!(targets(false), vec![v4]);
    assert_eq!(targets(true), vec![v4, v6]);
    let mut listening = vec![];
    assert_eq!(bound(&mut listening, v4, true), Ok(()));
    assert_eq!(bound(&mut listening, v6, false), Ok(()));
    assert_eq!(listening, vec![v4]);
    assert_eq!(
        bound(&mut listening, v4, false),
        Err("cannot listen on 127.0.0.1:53 — another program already owns port 53".to_string())
    );
}

#[test]
fn servfail_answered_once_more_is_the_same_message() {
    let mut q = vec![0x12, 0x34, 0x01, 0x20, 0, 1, 0, 0, 0, 0, 0, 1];
    q.extend_from_slice(&[1, b'a', 0, 0, 1, 0, 1, 7, 7]);
    let r = servfail(&q).unwrap();
    assert_eq!(servfail(&r).unwrap(), r);
}
