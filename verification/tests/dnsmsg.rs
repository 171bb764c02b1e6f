use dns_ai::dnsmsg::{
    addresses, build_query, dotted, qtype_from_str, quoted, rcode_name, read_labels, read_name,
    summarize, MessageError, NameError, TYPE_A, TYPE_AAAA, TYPE_CNAME, TYPE_TXT,
};
use dns_ai::addr::{IpAddr, Ipv4Addr, Ipv6Addr};

#[test]
fn query_round_trips_through_the_parser() {
    let q = build_query("example.com", TYPE_A, 0xBEEF).unwrap();
    assert_eq!(&q[0..2], &[0xBE, 0xEF]);
    assert_eq!(u16::from_be_bytes([q[4], q[5]]), 1);
    assert!(q.ends_with(&[0x00, 0x01, 0x00, 0x01]));
    // Zero answers, so summarising it exercises the question-skipping path.
    let s = summarize(&q).unwrap();
    assert_eq!(s.answer_count, 0);
}

#[test]
fn rejects_a_malformed_name() {
    assert!(build_query("a..b", TYPE_A, 1).is_err());
    assert!(build_query(&"x".repeat(64), TYPE_A, 1).is_err());
}

#[test]
fn parses_an_a_answer_with_a_compression_pointer() {
    let mut m = build_query("example.com", TYPE_A, 1).unwrap();
    m[3] = 0; // RCODE 0
    m[6] = 0;
    m[7] = 1; // ANCOUNT = 1
    m.extend_from_slice(&[0xC0, 0x0C]); // name -> offset 12
    m.extend_from_slice(&TYPE_A.to_be_bytes());
    m.extend_from_slice(&[0x00, 0x01]); // IN
    m.extend_from_slice(&60u32.to_be_bytes());
    m.extend_from_slice(&4u16.to_be_bytes());
    m.extend_from_slice(&[93, 184, 216, 34]);

    let s = summarize(&m).unwrap();
    assert_eq!(s.rcode, 0);
    assert_eq!(s.answer_count, 1);
    assert!(s.answers[0].contains("93.184.216.34"), "{:?}", s.answers);
}

#[test]
fn a_pointer_cycle_does_not_hang() {
    // Two pointers aimed at each other: read_name must give up, not spin.
    let msg = vec![0xC0, 0x02, 0xC0, 0x00];
    assert!(read_name(&msg, 0).is_err());
}

/// A message with one question for `example.com` and the given records behind it, each with a
/// pointer to that name.
fn answer(records: &[(u16, u32, Vec<u8>)]) -> Vec<u8> {
    let mut m = build_query("example.com", TYPE_A, 7).unwrap();
    m[7] = records.len() as u8;
    for (rtype, ttl, data) in records {
        m.extend_from_slice(&[0xC0, 0x0C]);
        m.extend_from_slice(&rtype.to_be_bytes());
        m.extend_from_slice(&[0x00, 0x01]);
        m.extend_from_slice(&ttl.to_be_bytes());
        m.extend_from_slice(&(data.len() as u16).to_be_bytes());
        m.extend_from_slice(data);
    }
    m
}

#[test]
fn record_types_are_known_by_name() {
    assert_eq!(qtype_from_str("a"), Some(TYPE_A));
    assert_eq!(qtype_from_str("AaAa"), Some(TYPE_AAAA));
    assert_eq!(qtype_from_str("cname"), Some(TYPE_CNAME));
    assert_eq!(qtype_from_str("TXT"), Some(TYPE_TXT));
    assert_eq!(qtype_from_str("MX"), None);
    assert_eq!(qtype_from_str(""), None);
    assert_eq!(qtype_from_str("А"), None); // a Cyrillic letter
}

#[test]
fn response_codes_have_names() {
    let names: Vec<&str> = (0u8..8).map(rcode_name).collect();
    assert_eq!(
        names,
        vec!["NOERROR", "FORMERR", "SERVFAIL", "NXDOMAIN", "NOTIMP", "REFUSED", "?", "?"]
    );
}

#[test]
fn the_query_is_the_one_on_the_wire() {
    let q = build_query("ab.c.", TYPE_TXT, 0x1234).unwrap();
    assert_eq!(
        q,
        vec![
            0x12, 0x34, 1, 0, 0, 1, 0, 0, 0, 0, 0, 0, 2, b'a', b'b', 1, b'c', 0, 0, 16, 0, 1
        ]
    );
}

#[test]
fn the_first_bad_label_decides_the_error() {
    let long = "x".repeat(64);
    assert_eq!(build_query("", TYPE_A, 1), Err(NameError::EmptyLabel));
    assert_eq!(build_query("...", TYPE_A, 1), Err(NameError::EmptyLabel));
    assert_eq!(build_query(&format!("{long}..b"), TYPE_A, 1), Err(NameError::LongLabel));
    assert_eq!(build_query(&format!("a..{long}"), TYPE_A, 1), Err(NameError::EmptyLabel));
    // Thirty-two Cyrillic letters are sixty-four bytes.
    assert_eq!(build_query(&"я".repeat(32), TYPE_A, 1), Err(NameError::LongLabel));
    assert!(build_query(&"x".repeat(63), TYPE_A, 1).is_ok());
    assert_eq!(
        NameError::EmptyLabel.message("a..b"),
        "пустая метка в имени «a..b»"
    );
    assert_eq!(
        NameError::LongLabel.message("a"),
        "метка длиннее 63 байт в имени «a»"
    );
}

#[test]
fn a_query_reads_back_as_it_was_asked() {
    let q = build_query("dns.dns-ai.ru", TYPE_AAAA, 9).unwrap();
    assert_eq!(read_name(&q, 12).unwrap(), "dns.dns-ai.ru");
    assert_eq!(
        read_labels(&q, 12).unwrap(),
        vec![b"dns".to_vec(), b"dns-ai".to_vec(), b"ru".to_vec()]
    );
    let q = build_query("пример.рф.", TYPE_A, 9).unwrap();
    assert_eq!(read_name(&q, 12).unwrap(), "пример.рф");
    assert_eq!(read_name(&[2, 0xff, b'a', 0], 0).unwrap(), "\u{fffd}a");
}

#[test]
fn records_are_described_line_by_line() {
    let m = answer(&[
        (TYPE_A, 60, vec![93, 184, 216, 34]),
        (TYPE_AAAA, 3600, vec![0x2a, 0x0d, 0x84, 0x80, 0, 0, 6, 0x7c, 0, 0, 0, 0, 0, 0, 0, 0x14]),
        (TYPE_TXT, 1, vec![2, b'h', b'i', 1, b'!', 9, b'x']),
        (TYPE_CNAME, 123456789, vec![0xC0, 0x0C]),
        (TYPE_CNAME, 5, vec![0xC0, 0xFF]),
        (15, 0, vec![1, 2, 3]),
    ]);
    let s = summarize(&m).unwrap();
    assert_eq!(s.answer_count, 6);
    assert_eq!(
        s.answers,
        vec![
            "A      ttl=60     93.184.216.34",
            "AAAA   ttl=3600   2a0d:8480:0:67c:0:0:0:14",
            "TXT    ttl=1      \"hi!\"",
            "CNAME  ttl=123456789 example.com",
            "CNAME  ttl=5      <нечитаемое имя>",
            "прочее ttl=0      3 байт",
        ]
    );
}

#[test]
fn text_that_is_no_utf8_is_replaced_not_refused() {
    let m = answer(&[(TYPE_TXT, 0, vec![3, b'a', 0xFF, b'b'])]);
    assert_eq!(summarize(&m).unwrap().answers[0], "TXT    ttl=0      \"a\u{fffd}b\"");
    assert_eq!(dotted(&vec!["a".to_string(), "b".to_string()]), "a.b");
    assert_eq!(quoted(&vec!["a".to_string(), "b".to_string()]), "\"ab\"");
}

#[test]
fn the_response_code_is_the_low_half_of_the_byte() {
    let mut m = answer(&[]);
    m[3] = 0xA3;
    assert_eq!(summarize(&m).unwrap().rcode, 3);
}

#[test]
fn messages_that_are_cut_off_are_refused() {
    let m = answer(&[(TYPE_A, 60, vec![93, 184, 216, 34])]);
    assert_eq!(summarize(&m[..11]).unwrap_err(), MessageError::Short(11));
    assert_eq!(summarize(&m[..20]).unwrap_err(), MessageError::NameOutside);
    assert_eq!(summarize(&m[..35]).unwrap_err(), MessageError::RecordHeaderCut);
    assert_eq!(summarize(&m[..m.len() - 1]).unwrap_err(), MessageError::RecordDataCut);
    assert_eq!(
        MessageError::Short(11).message(),
        "ответ короче заголовка (11 байт)"
    );
    assert_eq!(MessageError::NameOutside.message(), "имя выходит за границы сообщения");
    assert_eq!(MessageError::RecordHeaderCut.message(), "ответ обрывается в заголовке записи");
    assert_eq!(MessageError::RecordDataCut.message(), "ответ обрывается в данных записи");
}

#[test]
fn names_that_cannot_be_read_say_why() {
    assert_eq!(read_name(&[3, b'a'], 0), Err(MessageError::LabelOutside));
    assert_eq!(read_name(&[0xC0], 0), Err(MessageError::PointerCut));
    assert_eq!(read_name(&[1, b'a'], 0), Err(MessageError::NameOutside));
    assert_eq!(read_name(&[0xC0, 0], 0), Err(MessageError::PointerLoop));
    assert_eq!(read_name(&[0], 0).unwrap(), "");
    assert_eq!(MessageError::LabelOutside.message(), "метка выходит за границы");
    assert_eq!(MessageError::PointerCut.message(), "оборванный указатель");
    assert_eq!(MessageError::PointerLoop.message(), "цикл указателей сжатия");
}

#[test]
fn addresses_are_taken_out_of_an_answer() {
    let m = answer(&[
        (TYPE_A, 60, vec![192, 144, 59, 14]),
        (TYPE_CNAME, 60, vec![0xC0, 0x0C]),
        (TYPE_A, 60, vec![1, 2, 3]),
        (TYPE_AAAA, 60, vec![0x2a, 0x0d, 0x84, 0x80, 0, 0, 6, 0x7c, 0, 0, 0, 0, 0, 0, 0, 0x14]),
    ]);
    assert_eq!(
        addresses(&m),
        vec![
            IpAddr::V4(Ipv4Addr::new(192, 144, 59, 14)),
            IpAddr::V6(Ipv6Addr::new(0x2a0d, 0x8480, 0, 0x67c, 0, 0, 0, 0x14)),
        ]
    );
    assert_eq!(addresses(&m[..m.len() - 1]), vec![]);
    assert_eq!(addresses(&[]), vec![]);
}
