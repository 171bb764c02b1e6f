//! Addresses in text: the forms that are read, and the one form that is written.

use vstd::prelude::*;

use crate::addr::{IpAddr, Ipv4Addr, Ipv6Addr, SocketAddr};
use crate::dnsmsg::quad_text;
use crate::text::{chars_of, join, push_decimal, push_hexadecimal, split, text_of};
#[allow(unused_imports)]
use crate::dnsmsg::{dotted_quad, lemma_pieces_joined_again};
#[allow(unused_imports)]
use crate::text::{
    decimal, digit, hexadecimal, joined, lemma_pieces_not_empty, pieces, texts, texts_push,
};

verus! {

/// The value of a digit in a base of ten or sixteen.
pub open spec fn digit_value(c: char, base: int) -> Option<int> {
    if '0' <= c && c <= '9' {
        Some(c as int - '0' as int)
    } else if base == 16 && 'a' <= c && c <= 'f' {
        Some(c as int - 'a' as int + 10)
    } else if base == 16 && 'A' <= c && c <= 'F' {
        Some(c as int - 'A' as int + 10)
    } else {
        None
    }
}

/// The number that digits write, if all of them are digits.
pub open spec fn number(s: Seq<char>, base: int) -> Option<int>
    decreases s.len(),
{
    if s.len() == 0 {
        Some(0)
    } else {
        match (number(s.drop_last(), base), digit_value(s.last(), base)) {
            (Some(n), Some(d)) => Some(n * base + d),
            _ => None,
        }
    }
}

/// An octet in text: one to three decimal digits, no needless zero in front, at most 255.
pub open spec fn octet(s: Seq<char>) -> Option<u8> {
    if 1 <= s.len() <= 3 && (s.len() == 1 || s[0] != '0') && number(s, 10) is Some && number(
        s,
        10,
    )->0 <= 255 {
        Some(number(s, 10)->0 as u8)
    } else {
        None
    }
}

/// The IPv4 address that a text writes: four octets with a dot between each two.
pub open spec fn v4_of(s: Seq<char>) -> Option<Ipv4Addr> {
    let p = pieces(s, seq!['.']);
    if p.len() == 4 && octet(p[0]) is Some && octet(p[1]) is Some && octet(p[2]) is Some && octet(
        p[3],
    ) is Some {
        Some(
            Ipv4Addr { a: octet(p[0])->0, b: octet(p[1])->0, c: octet(p[2])->0, d: octet(p[3])->0 },
        )
    } else {
        None
    }
}

/// A group of an IPv6 address in text: one to four hexadecimal digits of either case.
pub open spec fn group(s: Seq<char>) -> Option<u16> {
    if 1 <= s.len() <= 4 && number(s, 16) is Some {
        Some(number(s, 16)->0 as u16)
    } else {
        None
    }
}

/// The groups that pieces of text write.
pub open spec fn groups_of(p: Seq<Seq<char>>) -> Option<Seq<u16>>
    decreases p.len(),
{
    if p.len() == 0 {
        Some(Seq::empty())
    } else {
        match (groups_of(p.drop_last()), group(p.last())) {
            (Some(front), Some(g)) => Some(front.push(g)),
            _ => None,
        }
    }
}

/// The two groups that an IPv4 address takes at the end of an IPv6 address.
pub open spec fn tail_groups(ip: Ipv4Addr) -> Seq<u16> {
    seq![(ip.a * 256 + ip.b) as u16, (ip.c * 256 + ip.d) as u16]
}

/// The groups of a stretch of an IPv6 address with colons between them; where `quad` is allowed,
/// the last piece may be an IPv4 address, which counts as two.
pub open spec fn stretch(s: Seq<char>, quad: bool) -> Option<Seq<u16>> {
    let p = pieces(s, seq![':']);
    if s.len() == 0 {
        Some(Seq::empty())
    } else if quad && v4_of(p.last()) is Some {
        match groups_of(p.drop_last()) {
            Some(front) => Some(front + tail_groups(v4_of(p.last())->0)),
            None => None,
        }
    } else {
        groups_of(p)
    }
}

/// Where two colons first stand side by side, from `i` on.
pub open spec fn double_colon(s: Seq<char>, i: int) -> Option<int>
    decreases s.len() - i,
{
    if i < 0 || i + 1 >= s.len() {
        None
    } else if s[i] == ':' && s[i + 1] == ':' {
        Some(i)
    } else {
        double_colon(s, i + 1)
    }
}

/// So many groups of zero.
pub open spec fn zeros(n: int) -> Seq<u16> {
    Seq::new(n as nat, |i: int| 0u16)
}

/// The IPv6 address that a text writes: eight groups, or fewer with one `::` in place of the
/// groups of zero that are left out, of which there is at least one.
pub open spec fn v6_of(s: Seq<char>) -> Option<Ipv6Addr> {
    match double_colon(s, 0) {
        None => match stretch(s, true) {
            Some(g) => if g.len() == 8 {
                Some(Ipv6Addr::of(g))
            } else {
                None
            },
            None => None,
        },
        Some(i) => match (stretch(s.take(i), false), stretch(s.skip(i + 2), true)) {
            (Some(h), Some(t)) => if h.len() + t.len() <= 7 {
                Some(Ipv6Addr::of(h + zeros(8 - h.len() - t.len()) + t))
            } else {
                None
            },
            _ => None,
        },
    }
}

/// The address that a text writes.
pub open spec fn ip_of(s: Seq<char>) -> Option<IpAddr> {
    match v4_of(s) {
        Some(ip) => Some(IpAddr::V4(ip)),
        None => match v6_of(s) {
            Some(ip) => Some(IpAddr::V6(ip)),
            None => None,
        },
    }
}

fn value_of(c: char, hex: bool) -> (r: Option<u32>)
    ensures
        match r {
            Some(d) => digit_value(c, if hex { 16 } else { 10 }) == Some(d as int) && d < 16,
            None => digit_value(c, if hex { 16 } else { 10 }) is None,
        },
{
    if '0' <= c && c <= '9' {
        Some(c as u32 - '0' as u32)
    } else if hex && 'a' <= c && c <= 'f' {
        Some(c as u32 - 'a' as u32 + 10)
    } else if hex && 'A' <= c && c <= 'F' {
        Some(c as u32 - 'A' as u32 + 10)
    } else {
        None
    }
}

proof fn lemma_number_bounds(s: Seq<char>, base: int)
    requires
        base == 10 || base == 16,
        s.len() <= 4,
    ensures
        number(s, base) is Some ==> 0 <= number(s, base)->0 < 65536,
        number(s, base) is Some && s.len() <= 3 ==> number(s, base)->0 < 4096,
        number(s, base) is Some && s.len() <= 2 ==> number(s, base)->0 < 256,
        number(s, base) is Some && s.len() <= 1 ==> number(s, base)->0 < 16,
        number(s, base) is Some && s.len() <= 0 ==> number(s, base)->0 < 1,
    decreases s.len(),
{
    if s.len() > 0 {
        lemma_number_bounds(s.drop_last(), base);
        assert(base == 10 ==> number(s.drop_last(), base)->0 * base == number(
            s.drop_last(),
            base,
        )->0 * 10);
        assert(base == 16 ==> number(s.drop_last(), base)->0 * base == number(
            s.drop_last(),
            base,
        )->0 * 16);
    }
}

proof fn lemma_number_cut(s: Seq<char>, base: int, k: int)
    requires
        0 <= k <= s.len(),
        number(s.take(k), base) is None,
    ensures
        number(s, base) is None,
    decreases s.len(),
{
    if k == s.len() {
        assert(s.take(k) =~= s);
    } else {
        assert(s.drop_last().take(k) =~= s.take(k));
        lemma_number_cut(s.drop_last(), base, k);
    }
}

/// Reads up to four digits.
fn read_number(c: &Vec<char>, hex: bool) -> (r: Option<u32>)
    requires
        c@.len() <= 4,
    ensures
        match r {
            Some(n) => number(c@, if hex { 16 } else { 10 }) == Some(n as int),
            None => number(c@, if hex { 16 } else { 10 }) is None,
        },
{
    let base: u32 = if hex { 16 } else { 10 };
    let mut n: u32 = 0;
    let mut i: usize = 0;
    while i < c.len()
        invariant
            c@.len() <= 4,
            i <= c@.len(),
            base == (if hex { 16u32 } else { 10u32 }),
            number(c@.take(i as int), base as int) == Some(n as int),
        decreases c@.len() - i,
    {
        proof {
            assert(c@.take(i + 1).drop_last() =~= c@.take(i as int));
            lemma_number_bounds(c@.take(i as int), base as int);
        }
        match value_of(c[i], hex) {
            Some(d) => {
                assert(n < 4096);
                assert(hex ==> n * base == n * 16);
                assert(!hex ==> n * base == n * 10);
                n = n * base + d;
            },
            None => {
                proof {
                    lemma_number_cut(c@, base as int, i + 1);
                }
                return None;
            },
        }
        i += 1;
    }
    assert(c@.take(i as int) =~= c@);
    Some(n)
}

fn read_octet(s: &str) -> (r: Option<u8>)
    ensures
        r == octet(s@),
{
    let c: Vec<char> = chars_of(s);
    if c.len() < 1 || c.len() > 3 || (c.len() > 1 && c[0] == '0') {
        return None;
    }
    proof {
        lemma_number_bounds(c@, 10);
    }
    match read_number(&c, false) {
        Some(n) => if n <= 255 {
            Some(n as u8)
        } else {
            None
        },
        None => None,
    }
}

fn read_group(s: &str) -> (r: Option<u16>)
    ensures
        r == group(s@),
{
    let c: Vec<char> = chars_of(s);
    if c.len() < 1 || c.len() > 4 {
        return None;
    }
    proof {
        lemma_number_bounds(c@, 16);
    }
    match read_number(&c, true) {
        Some(n) => Some(n as u16),
        None => None,
    }
}

/// Reads an IPv4 address.
pub fn parse_v4(s: &str) -> (r: Option<Ipv4Addr>)
    ensures
        r == v4_of(s@),
{
    let mut dot: Vec<char> = Vec::new();
    dot.push('.');
    assert(dot@ =~= seq!['.']);
    let p: Vec<String> = split(s, &dot);
    assert(texts(p@).len() == p@.len());
    if p.len() != 4 {
        return None;
    }
    assert(texts(p@)[0] == p@[0]@ && texts(p@)[1] == p@[1]@ && texts(p@)[2] == p@[2]@ && texts(
        p@,
    )[3] == p@[3]@);
    match (
        read_octet(p[0].as_str()),
        read_octet(p[1].as_str()),
        read_octet(p[2].as_str()),
        read_octet(p[3].as_str()),
    ) {
        (Some(a), Some(b), Some(c), Some(d)) => Some(Ipv4Addr { a, b, c, d }),
        _ => None,
    }
}

proof fn lemma_groups_cut(p: Seq<Seq<char>>, k: int)
    requires
        0 <= k <= p.len(),
        groups_of(p.take(k)) is None,
    ensures
        groups_of(p) is None,
    decreases p.len(),
{
    if k == p.len() {
        assert(p.take(k) =~= p);
    } else {
        assert(p.drop_last().take(k) =~= p.take(k));
        lemma_groups_cut(p.drop_last(), k);
    }
}

/// Reads the first `n` pieces as groups.
fn read_groups(p: &Vec<String>, n: usize) -> (r: Option<Vec<u16>>)
    requires
        n <= p@.len(),
    ensures
        match r {
            Some(g) => groups_of(texts(p@).take(n as int)) == Some(g@),
            None => groups_of(texts(p@).take(n as int)) is None,
        },
{
    let ghost all = texts(p@).take(n as int);
    let mut out: Vec<u16> = Vec::new();
    let mut i: usize = 0;
    while i < n
        invariant
            i <= n <= p@.len(),
            all == texts(p@).take(n as int),
            groups_of(all.take(i as int)) == Some(out@),
        decreases n - i,
    {
        proof {
            assert(all.take(i + 1).drop_last() =~= all.take(i as int));
            assert(all.take(i + 1).last() == p@[i as int]@);
        }
        match read_group(p[i].as_str()) {
            Some(g) => {
                out.push(g);
            },
            None => {
                proof {
                    lemma_groups_cut(all, i + 1);
                }
                return None;
            },
        }
        i += 1;
    }
    assert(all.take(i as int) =~= all);
    Some(out)
}

fn read_stretch(s: &str, quad: bool) -> (r: Option<Vec<u16>>)
    ensures
        match r {
            Some(g) => stretch(s@, quad) == Some(g@),
            None => stretch(s@, quad) is None,
        },
{
    if s.is_empty() {
        let none: Vec<u16> = Vec::new();
        assert(none@ =~= Seq::<u16>::empty());
        return Some(none);
    }
    let mut colon: Vec<char> = Vec::new();
    colon.push(':');
    assert(colon@ =~= seq![':']);
    let p: Vec<String> = split(s, &colon);
    let n: usize = p.len();
    proof {
        lemma_pieces_not_empty(s@, seq![':']);
        assert(texts(p@).len() == n);
        assert(texts(p@).last() == p@.last()@);
        assert(texts(p@).take(n - 1) =~= texts(p@).drop_last());
        assert(texts(p@).take(n as int) =~= texts(p@));
    }
    if quad {
        if let Some(ip) = parse_v4(p[n - 1].as_str()) {
            return match read_groups(&p, n - 1) {
                Some(front) => {
                    let mut g = front;
                    g.push(ip.a as u16 * 256 + ip.b as u16);
                    g.push(ip.c as u16 * 256 + ip.d as u16);
                    assert(g@ =~= front@ + tail_groups(ip));
                    Some(g)
                },
                None => None,
            };
        }
    }
    read_groups(&p, n)
}

fn find_double_colon(c: &Vec<char>) -> (r: Option<usize>)
    ensures
        match r {
            Some(i) => double_colon(c@, 0) == Some(i as int) && i + 2 <= c@.len(),
            None => double_colon(c@, 0) is None,
        },
{
    let mut i: usize = 0;
    while i < c.len()
        invariant
            i <= c@.len(),
            double_colon(c@, i as int) == double_colon(c@, 0),
        decreases c@.len() - i,
    {
        if i + 1 < c.len() && c[i] == ':' && c[i + 1] == ':' {
            return Some(i);
        }
        i += 1;
    }
    None
}

fn from_groups(g: &Vec<u16>) -> (r: Ipv6Addr)
    requires
        g@.len() == 8,
    ensures
        r == Ipv6Addr::of(g@),
{
    Ipv6Addr::new(g[0], g[1], g[2], g[3], g[4], g[5], g[6], g[7])
}

/// Reads an IPv6 address.
pub fn parse_v6(s: &str) -> (r: Option<Ipv6Addr>)
    ensures
        r == v6_of(s@),
{
    let c: Vec<char> = chars_of(s);
    match find_double_colon(&c) {
        None => match read_stretch(s, true) {
            Some(g) => if g.len() == 8 {
                Some(from_groups(&g))
            } else {
                None
            },
            None => None,
        },
        Some(i) => {
            let head = text_of(&c, 0, i);
            let tail = text_of(&c, i + 2, c.len());
            assert(head@ =~= s@.take(i as int));
            assert(tail@ =~= s@.skip(i + 2));
            let h: Vec<u16> = match read_stretch(head.as_str(), false) {
                Some(h) => h,
                None => return None,
            };
            let t: Vec<u16> = match read_stretch(tail.as_str(), true) {
                Some(t) => t,
                None => return None,
            };
            if h.len() > 7 || t.len() > 7 - h.len() {
                return None;
            }
            let mut g: Vec<u16> = h;
            let gap: usize = 8 - g.len() - t.len();
            let mut k: usize = 0;
            while k < gap
                invariant
                    k <= gap,
                    gap <= 8,
                    g@ == h@ + zeros(k as int),
                decreases gap - k,
            {
                g.push(0);
                k += 1;
                assert(zeros(k as int) =~= zeros(k - 1).push(0));
            }
            let mut j: usize = 0;
            assert(g@ =~= h@ + zeros(gap as int) + t@.take(0));
            while j < t.len()
                invariant
                    j <= t@.len(),
                    g@ == h@ + zeros(gap as int) + t@.take(j as int),
                decreases t@.len() - j,
            {
                g.push(t[j]);
                j += 1;
                assert(t@.take(j as int) =~= t@.take(j - 1).push(t@[j - 1]));
            }
            assert(t@.take(j as int) =~= t@);
            Some(from_groups(&g))
        },
    }
}

/// Reads an address of either family.
pub fn parse_ip(s: &str) -> (r: Option<IpAddr>)
    ensures
        r == ip_of(s@),
{
    match parse_v4(s) {
        Some(ip) => Some(IpAddr::V4(ip)),
        None => match parse_v6(s) {
            Some(ip) => Some(IpAddr::V6(ip)),
            None => None,
        },
    }
}

/// How many groups from `i` on are zero before one that is not.
pub open spec fn run_at(g: Seq<u16>, i: int) -> int
    decreases g.len() - i,
{
    if i < 0 || i >= g.len() || g[i] != 0 {
        0
    } else {
        1 + run_at(g, i + 1)
    }
}

/// The longest run of zero groups that starts at `i` or later, as its start and its length; the
/// first of several.
pub open spec fn longest_run(g: Seq<u16>, i: int) -> (int, int)
    decreases g.len() - i,
{
    if i < 0 || i >= g.len() {
        (0, 0)
    } else {
        let rest = longest_run(g, i + 1);
        if run_at(g, i) > 0 && run_at(g, i) >= rest.1 {
            (i, run_at(g, i))
        } else {
            rest
        }
    }
}

/// Each group in hexadecimal.
pub open spec fn hexes(g: Seq<u16>) -> Seq<Seq<char>> {
    Seq::new(g.len(), |i: int| hexadecimal(g[i] as nat))
}

/// Whether the address is an IPv4 address in IPv6's clothes.
pub open spec fn mapped(ip: Ipv6Addr) -> bool {
    ip.s0 == 0 && ip.s1 == 0 && ip.s2 == 0 && ip.s3 == 0 && ip.s4 == 0 && ip.s5 == 0xffff
}

/// The form in which an IPv6 address is written.
pub open spec fn v6_form(ip: Ipv6Addr) -> Seq<char> {
    let g = ip.segments();
    let (start, len) = longest_run(g, 0);
    if mapped(ip) {
        "::ffff:"@ + dotted_quad(
            (ip.s6 / 256) as u8,
            (ip.s6 % 256) as u8,
            (ip.s7 / 256) as u8,
            (ip.s7 % 256) as u8,
        )
    } else if len > 1 {
        joined(hexes(g.take(start)), ":"@) + "::"@ + joined(hexes(g.skip(start + len)), ":"@)
    } else {
        joined(hexes(g), ":"@)
    }
}

/// The form in which an IPv4 address is written.
pub open spec fn v4_form(ip: Ipv4Addr) -> Seq<char> {
    dotted_quad(ip.a, ip.b, ip.c, ip.d)
}

/// The form in which an address is written.
pub open spec fn ip_form(ip: IpAddr) -> Seq<char> {
    match ip {
        IpAddr::V4(v4) => v4_form(v4),
        IpAddr::V6(v6) => v6_form(v6),
    }
}

/// Writes an IPv4 address.
pub fn v4_text(ip: &Ipv4Addr) -> (r: String)
    ensures
        r@ == v4_form(*ip),
{
    quad_text(ip.a, ip.b, ip.c, ip.d)
}

/// The groups `from..to`, in hexadecimal and with colons between them.
fn hex_text(g: &Vec<u16>, from: usize, to: usize) -> (r: String)
    requires
        from <= to <= g@.len(),
    ensures
        r@ == joined(hexes(g@.subrange(from as int, to as int)), ":"@),
{
    broadcast use texts_push;

    let ghost part = g@.subrange(from as int, to as int);
    let mut parts: Vec<String> = Vec::new();
    let mut i: usize = from;
    while i < to
        invariant
            from <= i <= to <= g@.len(),
            part == g@.subrange(from as int, to as int),
            texts(parts@) == hexes(part).take(i - from),
        decreases to - i,
    {
        let mut one = String::new();
        push_hexadecimal(&mut one, g[i] as u128);
        assert(one@ =~= hexadecimal(g@[i as int] as nat));
        parts.push(one);
        i += 1;
        assert(hexes(part).take(i - from) =~= hexes(part).take(i - from - 1).push(
            hexes(part)[i - from - 1],
        ));
    }
    assert(hexes(part).take(i - from) =~= hexes(part));
    join(&parts, ":")
}

fn find_longest_run(g: &Vec<u16>) -> (r: (usize, usize))
    requires
        g@.len() == 8,
    ensures
        r.0 as int == longest_run(g@, 0).0,
        r.1 as int == longest_run(g@, 0).1,
        r.0 + r.1 <= 8,
{
    let mut start: usize = 0;
    let mut len: usize = 0;
    let mut run: usize = 0;
    let mut i: usize = 8;
    while i > 0
        invariant
            g@.len() == 8,
            i <= 8,
            run as int == run_at(g@, i as int),
            run <= 8 - i,
            (start as int, len as int) == longest_run(g@, i as int),
            start + len <= 8,
        decreases i,
    {
        i -= 1;
        run = if g[i] == 0 {
            run + 1
        } else {
            0
        };
        if run > 0 && run >= len {
            start = i;
            len = run;
        }
    }
    (start, len)
}

/// Writes an IPv6 address.
pub fn v6_text(ip: &Ipv6Addr) -> (r: String)
    ensures
        r@ == v6_form(*ip),
{
    if ip.s0 == 0 && ip.s1 == 0 && ip.s2 == 0 && ip.s3 == 0 && ip.s4 == 0 && ip.s5 == 0xffff {
        let mut out = "::ffff:".to_owned();
        out.append(
            quad_text(
                (ip.s6 / 256) as u8,
                (ip.s6 % 256) as u8,
                (ip.s7 / 256) as u8,
                (ip.s7 % 256) as u8,
            ).as_str(),
        );
        return out;
    }
    let g: Vec<u16> = ip.to_vec();
    let (start, len) = find_longest_run(&g);
    if len > 1 {
        let mut out = hex_text(&g, 0, start);
        out.append("::");
        out.append(hex_text(&g, start + len, 8).as_str());
        assert(g@.subrange(0, start as int) =~= g@.take(start as int));
        assert(g@.subrange(start + len, 8) =~= g@.skip(start + len));
        out
    } else {
        assert(g@.subrange(0, 8) =~= g@);
        hex_text(&g, 0, 8)
    }
}

/// Writes an address.
pub fn ip_text(ip: &IpAddr) -> (r: String)
    ensures
        r@ == ip_form(*ip),
{
    match ip {
        IpAddr::V4(v4) => v4_text(v4),
        IpAddr::V6(v6) => v6_text(v6),
    }
}

/// The form in which an address and a port are written.
pub open spec fn socket_form(a: SocketAddr) -> Seq<char> {
    match a.ip {
        IpAddr::V4(v4) => v4_form(v4) + ":"@ + decimal(a.port as nat),
        IpAddr::V6(v6) => "["@ + v6_form(v6) + "]:"@ + decimal(a.port as nat),
    }
}

/// Writes an address and a port.
pub fn socket_text(a: &SocketAddr) -> (r: String)
    ensures
        r@ == socket_form(*a),
{
    match &a.ip {
        IpAddr::V4(v4) => {
            let mut out = v4_text(v4);
            out.append(":");
            push_decimal(&mut out, a.port as u64);
            out
        },
        IpAddr::V6(v6) => {
            let mut out = "[".to_owned();
            out.append(v6_text(v6).as_str());
            out.append("]:");
            push_decimal(&mut out, a.port as u64);
            out
        },
    }
}

/// Text without separators only makes the last piece longer.
proof fn lemma_pieces_plain(a: Seq<char>, b: Seq<char>, seps: Seq<char>)
    requires
        forall|i: int| 0 <= i < b.len() ==> !seps.contains(#[trigger] b[i]),
    ensures
        pieces(a + b, seps) == pieces(a, seps).drop_last().push(pieces(a, seps).last() + b),
    decreases b.len(),
{
    lemma_pieces_not_empty(a, seps);
    let p = pieces(a, seps);
    if b.len() == 0 {
        assert(a + b =~= a);
        assert(p.last() + b =~= p.last());
        assert(p.drop_last().push(p.last()) =~= p);
    } else {
        let front = b.drop_last();
        assert forall|i: int| 0 <= i < front.len() implies !seps.contains(#[trigger] front[i]) by {
            assert(front[i] == b[i]);
        }
        lemma_pieces_plain(a, front, seps);
        assert((a + b).drop_last() =~= a + front);
        assert((a + b).last() == b[b.len() - 1]);
        let q = pieces(a + front, seps);
        assert(q.drop_last() =~= p.drop_last());
        assert((p.last() + front).push(b.last()) =~= p.last() + b);
    }
}

/// A separator starts a new piece.
proof fn lemma_pieces_sep(a: Seq<char>, c: char, b: Seq<char>, seps: Seq<char>)
    requires
        seps.contains(c),
        forall|i: int| 0 <= i < b.len() ==> !seps.contains(#[trigger] b[i]),
    ensures
        pieces(a.push(c) + b, seps) == pieces(a, seps).push(b),
{
    assert(a.push(c).drop_last() =~= a);
    lemma_pieces_plain(a.push(c), b, seps);
    assert(pieces(a, seps).push(Seq::<char>::empty()).drop_last() =~= pieces(a, seps));
    assert(Seq::<char>::empty() + b =~= b);
}

/// Text without separators is one piece.
proof fn lemma_one_piece(b: Seq<char>, seps: Seq<char>)
    requires
        forall|i: int| 0 <= i < b.len() ==> !seps.contains(#[trigger] b[i]),
    ensures
        pieces(b, seps) == seq![b],
{
    lemma_pieces_plain(Seq::empty(), b, seps);
    assert(Seq::<char>::empty() + b =~= b);
    assert(pieces(Seq::<char>::empty(), seps) =~= seq![Seq::<char>::empty()]);
    assert(pieces(b, seps) =~= seq![b]);
}

/// Whether no text of the list is empty or has a colon or a dot in it.
spec fn plain(parts: Seq<Seq<char>>) -> bool {
    forall|i: int, j: int|
        0 <= i < parts.len() && 0 <= j < parts[i].len() ==> #[trigger] parts[i][j] != ':'
            && parts[i][j] != '.'
}

spec fn filled(parts: Seq<Seq<char>>) -> bool {
    forall|i: int| 0 <= i < parts.len() ==> (#[trigger] parts[i]).len() > 0
}

proof fn lemma_pieces_joined(parts: Seq<Seq<char>>)
    requires
        parts.len() > 0,
        plain(parts),
    ensures
        pieces(joined(parts, ":"@), seq![':']) == parts,
    decreases parts.len(),
{
    reveal_strlit(":");
    let seps = seq![':'];
    assert(":"@ =~= seps);
    assert forall|c: char| #[trigger] seps.contains(c) implies c == ':' by {}
    assert(seps[0] == ':');
    if parts.len() == 1 {
        lemma_one_piece(parts[0], seps);
        assert(parts =~= seq![parts[0]]);
    } else {
        let front = parts.drop_last();
        assert(plain(front)) by {
            assert forall|i: int, j: int|
                0 <= i < front.len() && 0 <= j < front[i].len() implies #[trigger] front[i][j]
                != ':' && front[i][j] != '.' by {
                assert(front[i] == parts[i]);
            }
        }
        lemma_pieces_joined(front);
        let a = joined(front, ":"@);
        let b = parts.last();
        assert(a + ":"@ + b =~= a.push(':') + b);
        assert forall|i: int| 0 <= i < b.len() implies !seps.contains(#[trigger] b[i]) by {
            assert(parts[parts.len() - 1][i] != ':');
        }
        lemma_pieces_sep(a, ':', b, seps);
        assert(front.push(b) =~= parts);
    }
}

proof fn lemma_joined_shape(parts: Seq<Seq<char>>)
    requires
        parts.len() > 0,
        plain(parts),
        filled(parts),
    ensures
        ({
            let s = joined(parts, ":"@);
            &&& s.len() > 0
            &&& s[0] != ':'
            &&& s.last() != ':'
            &&& forall|i: int|
                0 <= i < s.len() - 1 ==> (#[trigger] s[i]) != ':' || s[i + 1] != ':'
            &&& forall|i: int| 0 <= i < s.len() ==> #[trigger] s[i] != '.'
        }),
    decreases parts.len(),
{
    reveal_strlit(":");
    let s = joined(parts, ":"@);
    if parts.len() == 1 {
        assert(parts[0].len() > 0);
        assert(parts[0][0] != ':');
        assert(parts[0][parts[0].len() - 1] != ':');
        assert forall|i: int| 0 <= i < s.len() implies #[trigger] s[i] != '.' && s[i] != ':' by {
            assert(parts[0][i] != '.');
        }
    } else {
        let front = parts.drop_last();
        assert forall|i: int| 0 <= i < front.len() implies (#[trigger] front[i]).len() > 0 by {
            assert(front[i] == parts[i]);
        }
        assert(plain(front)) by {
            assert forall|i: int, j: int|
                0 <= i < front.len() && 0 <= j < front[i].len() implies #[trigger] front[i][j]
                != ':' && front[i][j] != '.' by {
                assert(front[i] == parts[i]);
            }
        }
        lemma_joined_shape(front);
        let a = joined(front, ":"@);
        let b = parts.last();
        assert(parts[parts.len() - 1].len() > 0);
        assert forall|i: int| 0 <= i < b.len() implies #[trigger] b[i] != ':' && b[i] != '.' by {
            assert(parts[parts.len() - 1][i] != ':');
        }
        assert(s.len() == a.len() + 1 + b.len());
        assert(s[0] == a[0]);
        assert(s.last() == b[b.len() - 1]);
        assert forall|i: int| 0 <= i < s.len() - 1 implies (#[trigger] s[i]) != ':' || s[i + 1]
            != ':' by {
            if i < a.len() - 1 {
                assert(s[i] == a[i] && s[i + 1] == a[i + 1]);
            } else if i == a.len() - 1 {
                assert(s[i] == a.last());
            } else {
                assert(s[i + 1] == b[i + 1 - a.len() - 1]);
            }
        }
        assert forall|i: int| 0 <= i < s.len() implies #[trigger] s[i] != '.' by {
            if i < a.len() {
                assert(s[i] == a[i]);
            } else if i > a.len() {
                assert(s[i] == b[i - a.len() - 1]);
            }
        }
    }
}

proof fn lemma_no_double_colon(s: Seq<char>, i: int)
    requires
        0 <= i,
        forall|k: int| 0 <= k < s.len() - 1 ==> (#[trigger] s[k]) != ':' || s[k + 1] != ':',
    ensures
        double_colon(s, i) is None,
    decreases s.len() - i,
{
    if i + 1 < s.len() {
        assert(s[i] != ':' || s[i + 1] != ':');
        lemma_no_double_colon(s, i + 1);
    }
}

proof fn lemma_double_colon_at(s: Seq<char>, i: int, at: int)
    requires
        0 <= i <= at,
        at + 1 < s.len(),
        s[at] == ':',
        s[at + 1] == ':',
        forall|k: int| 0 <= k < at ==> (#[trigger] s[k]) != ':' || s[k + 1] != ':',
    ensures
        double_colon(s, i) == Some(at),
    decreases at - i,
{
    if i < at {
        assert(s[i] != ':' || s[i + 1] != ':');
        lemma_double_colon_at(s, i + 1, at);
    }
}

proof fn lemma_digit(d: int, base: int)
    requires
        0 <= d < base,
        base == 10 || base == 16,
    ensures
        digit_value(digit(d), base) == Some(d),
        digit(d) != ':',
        digit(d) != '.',
        d > 0 ==> digit(d) != '0',
{
}

proof fn lemma_hexadecimal(n: nat)
    requires
        n < 65536,
    ensures
        number(hexadecimal(n), 16) == Some(n as int),
        1 <= hexadecimal(n).len() <= 4,
        n < 16 ==> hexadecimal(n).len() <= 1,
        n < 256 ==> hexadecimal(n).len() <= 2,
        n < 4096 ==> hexadecimal(n).len() <= 3,
        forall|i: int|
            0 <= i < hexadecimal(n).len() ==> #[trigger] hexadecimal(n)[i] != ':'
                && hexadecimal(n)[i] != '.',
    decreases n,
{
    let s = hexadecimal(n);
    if n < 16 {
        lemma_digit(n as int, 16);
        assert(s.drop_last() =~= Seq::<char>::empty());
        assert(number(s.drop_last(), 16) == Some(0int));
    } else {
        lemma_hexadecimal(n / 16);
        lemma_digit((n % 16) as int, 16);
        assert(s.drop_last() =~= hexadecimal(n / 16));
        assert forall|i: int| 0 <= i < s.len() implies #[trigger] s[i] != ':' && s[i] != '.' by {
            if i < s.len() - 1 {
                assert(s[i] == hexadecimal(n / 16)[i]);
            }
        }
    }
}

proof fn lemma_decimal(n: nat)
    requires
        n < 256,
    ensures
        number(decimal(n), 10) == Some(n as int),
        1 <= decimal(n).len() <= 3,
        n < 10 ==> decimal(n).len() == 1,
        n < 100 ==> decimal(n).len() <= 2,
        n > 0 ==> decimal(n)[0] != '0',
        octet(decimal(n)) == Some(n as u8),
        forall|i: int|
            0 <= i < decimal(n).len() ==> #[trigger] decimal(n)[i] != ':' && decimal(n)[i]
                != '.',
    decreases n,
{
    let s = decimal(n);
    if n < 10 {
        lemma_digit(n as int, 10);
        assert(s.drop_last() =~= Seq::<char>::empty());
        assert(number(s.drop_last(), 10) == Some(0int));
    } else {
        lemma_decimal(n / 10);
        lemma_digit((n % 10) as int, 10);
        assert(s.drop_last() =~= decimal(n / 10));
        assert(s[0] == decimal(n / 10)[0]);
        assert forall|i: int| 0 <= i < s.len() implies #[trigger] s[i] != ':' && s[i] != '.' by {
            if i < s.len() - 1 {
                assert(s[i] == decimal(n / 10)[i]);
            }
        }
    }
}

proof fn lemma_quad(a: u8, b: u8, c: u8, d: u8)
    ensures
        v4_of(dotted_quad(a, b, c, d)) == Some(Ipv4Addr { a, b, c, d }),
        forall|i: int|
            0 <= i < dotted_quad(a, b, c, d).len() ==> #[trigger] dotted_quad(a, b, c, d)[i]
                != ':',
        dotted_quad(a, b, c, d).len() > 0,
{
    lemma_decimal(a as nat);
    lemma_decimal(b as nat);
    lemma_decimal(c as nat);
    lemma_decimal(d as nat);
    let (w, x, y, z) = (
        decimal(a as nat),
        decimal(b as nat),
        decimal(c as nat),
        decimal(d as nat),
    );
    let seps = seq!['.'];
    assert(seps[0] == '.');
    assert forall|e: char| #[trigger] seps.contains(e) implies e == '.' by {}
    let one = w;
    let two = one.push('.') + x;
    let three = two.push('.') + y;
    let four = three.push('.') + z;
    assert(dotted_quad(a, b, c, d) =~= four);
    lemma_one_piece(one, seps);
    lemma_pieces_sep(one, '.', x, seps);
    lemma_pieces_sep(two, '.', y, seps);
    lemma_pieces_sep(three, '.', z, seps);
    assert(pieces(four, seps) =~= seq![w, x, y, z]);
    assert forall|i: int| 0 <= i < four.len() implies #[trigger] four[i] != ':' by {
        let n1 = w.len() as int;
        let n2 = n1 + 1 + x.len();
        let n3 = n2 + 1 + y.len();
        if i < n1 {
            assert(four[i] == w[i]);
        } else if n1 < i < n2 {
            assert(four[i] == x[i - n1 - 1]);
        } else if n2 < i < n3 {
            assert(four[i] == y[i - n2 - 1]);
        } else if n3 < i {
            assert(four[i] == z[i - n3 - 1]);
        }
    }
}

/// A character that is no separator stands in one of the pieces.
pub proof fn lemma_in_a_piece(s: Seq<char>, seps: Seq<char>, i: int) -> (r: (int, int))
    requires
        0 <= i < s.len(),
        !seps.contains(s[i]),
    ensures
        0 <= r.0 < pieces(s, seps).len(),
        0 <= r.1 < pieces(s, seps)[r.0].len(),
        pieces(s, seps)[r.0][r.1] == s[i],
    decreases s.len(),
{
    let before = pieces(s.drop_last(), seps);
    lemma_pieces_not_empty(s.drop_last(), seps);
    if i == s.len() - 1 {
        (before.len() - 1, before.last().len() as int)
    } else {
        let r = lemma_in_a_piece(s.drop_last(), seps, i);
        if !seps.contains(s.last()) && r.0 == before.len() - 1 {
            assert(before.last().push(s.last())[r.1] == before.last()[r.1]);
        }
        r
    }
}

proof fn lemma_number_of_nondigit(s: Seq<char>, i: int)
    requires
        0 <= i < s.len(),
        digit_value(s[i], 10) is None,
    ensures
        number(s, 10) is None,
    decreases s.len(),
{
    if i < s.len() - 1 {
        lemma_number_of_nondigit(s.drop_last(), i);
    }
}

/// A text with a colon in it writes no IPv4 address.
proof fn lemma_colon_is_not_v4(s: Seq<char>, i: int)
    requires
        0 <= i < s.len(),
        s[i] == ':',
    ensures
        v4_of(s) is None,
{
    let seps = seq!['.'];
    assert forall|e: char| #[trigger] seps.contains(e) implies e == '.' by {}
    let (k, j) = lemma_in_a_piece(s, seps, i);
    lemma_number_of_nondigit(pieces(s, seps)[k], j);
    assert(octet(pieces(s, seps)[k]) is None);
    if pieces(s, seps).len() == 4 {
        assert(k == 0 || k == 1 || k == 2 || k == 3);
    }
}

/// A text without dots writes no IPv4 address.
proof fn lemma_no_dot_is_not_v4(s: Seq<char>)
    requires
        forall|i: int| 0 <= i < s.len() ==> #[trigger] s[i] != '.',
    ensures
        v4_of(s) is None,
{
    let seps = seq!['.'];
    assert forall|e: char| #[trigger] seps.contains(e) implies e == '.' by {}
    lemma_one_piece(s, seps);
}

proof fn lemma_hexes(g: Seq<u16>)
    ensures
        plain(hexes(g)),
        filled(hexes(g)),
        groups_of(hexes(g)) == Some(g),
    decreases g.len(),
{
    let h = hexes(g);
    assert forall|i: int, j: int| 0 <= i < h.len() && 0 <= j < h[i].len() implies #[trigger] h[i][j]
        != ':' && h[i][j] != '.' by {
        lemma_hexadecimal(g[i] as nat);
        assert(hexadecimal(g[i] as nat)[j] != ':');
    }
    assert forall|i: int| 0 <= i < h.len() implies (#[trigger] h[i]).len() > 0 by {
        lemma_hexadecimal(g[i] as nat);
    }
    if g.len() > 0 {
        lemma_hexes(g.drop_last());
        lemma_hexadecimal(g.last() as nat);
        assert(h.drop_last() =~= hexes(g.drop_last()));
        assert(g.drop_last().push(g.last()) =~= g);
    } else {
        assert(g =~= Seq::<u16>::empty());
    }
}

/// The text of some groups reads as those groups, whether or not a dotted quad would be taken.
proof fn lemma_stretch(g: Seq<u16>, quad: bool)
    ensures
        stretch(joined(hexes(g), ":"@), quad) == Some(g),
{
    let h = hexes(g);
    lemma_hexes(g);
    if g.len() == 0 {
        assert(g =~= Seq::<u16>::empty());
    } else {
        lemma_joined_shape(h);
        lemma_pieces_joined(h);
        let last = h.last();
        assert forall|i: int| 0 <= i < last.len() implies #[trigger] last[i] != '.' by {
            assert(h[h.len() - 1][i] != ':');
        }
        lemma_no_dot_is_not_v4(last);
    }
}

proof fn lemma_run(g: Seq<u16>, i: int)
    requires
        0 <= i <= g.len(),
    ensures
        0 <= run_at(g, i) <= g.len() - i,
        forall|k: int| i <= k < i + run_at(g, i) ==> #[trigger] g[k] == 0,
    decreases g.len() - i,
{
    if i < g.len() && g[i] == 0 {
        lemma_run(g, i + 1);
    }
}

proof fn lemma_longest_run(g: Seq<u16>, i: int)
    requires
        0 <= i <= g.len(),
    ensures
        ({
            let (start, len) = longest_run(g, i);
            &&& 0 <= start
            &&& 0 <= len
            &&& start + len <= g.len()
            &&& forall|k: int| start <= k < start + len ==> #[trigger] g[k] == 0
        }),
    decreases g.len() - i,
{
    if i < g.len() {
        lemma_longest_run(g, i + 1);
        lemma_run(g, i);
    }
}

proof fn lemma_ffff()
    ensures
        groups_of(seq![seq!['f', 'f', 'f', 'f']]) == Some(seq![0xffffu16]),
{
    let ffff = seq!['f', 'f', 'f', 'f'];
    let n3 = seq!['f', 'f', 'f'];
    let n2 = seq!['f', 'f'];
    let n1 = seq!['f'];
    assert(ffff.drop_last() =~= n3);
    assert(n3.drop_last() =~= n2);
    assert(n2.drop_last() =~= n1);
    assert(n1.drop_last() =~= Seq::<char>::empty());
    assert(number(Seq::<char>::empty(), 16) == Some(0int));
    assert(number(n1, 16) == Some(0xfint));
    assert(number(n2, 16) == Some(0xffint));
    assert(number(n3, 16) == Some(0xfffint));
    assert(number(ffff, 16) == Some(0xffffint));
    let p = seq![ffff];
    assert(p.drop_last() =~= Seq::<Seq<char>>::empty());
    assert(groups_of(p.drop_last()) == Some(Seq::<u16>::empty()));
    assert(Seq::<u16>::empty().push(0xffffu16) =~= seq![0xffffu16]);
}

/// The groups behind the `::` of a mapped address.
proof fn lemma_mapped_tail(a: u8, b: u8, c: u8, d: u8)
    ensures
        stretch(seq!['f', 'f', 'f', 'f', ':'] + dotted_quad(a, b, c, d), true) == Some(
            seq![0xffffu16] + tail_groups(Ipv4Addr { a, b, c, d }),
        ),
{
    let ffff = seq!['f', 'f', 'f', 'f'];
    let quad = dotted_quad(a, b, c, d);
    let tail = seq!['f', 'f', 'f', 'f', ':'] + quad;
    let seps = seq![':'];
    lemma_quad(a, b, c, d);
    lemma_ffff();
    assert(tail =~= ffff.push(':') + quad);
    assert(seps[0] == ':');
    assert forall|e: char| #[trigger] seps.contains(e) implies e == ':' by {}
    lemma_one_piece(ffff, seps);
    lemma_pieces_sep(ffff, ':', quad, seps);
    let p = pieces(tail, seps);
    assert(p =~= seq![ffff].push(quad));
    assert(p.drop_last() =~= seq![ffff]);
    assert(p.last() == quad);
}

proof fn lemma_v6_mapped(ip: Ipv6Addr)
    requires
        mapped(ip),
    ensures
        ip_of(v6_form(ip)) == Some(IpAddr::V6(ip)),
{
    let (a, b, c, d) = (
        (ip.s6 / 256) as u8,
        (ip.s6 % 256) as u8,
        (ip.s7 / 256) as u8,
        (ip.s7 % 256) as u8,
    );
    let quad = dotted_quad(a, b, c, d);
    let s = v6_form(ip);
    let v4 = Ipv4Addr { a, b, c, d };
    reveal_strlit("::ffff:");
    assert(s[0] == ':' && s[1] == ':');
    lemma_colon_is_not_v4(s, 0);
    lemma_double_colon_at(s, 0, 0);
    assert(s.take(0) =~= Seq::<char>::empty());
    assert(s.skip(2) =~= seq!['f', 'f', 'f', 'f', ':'] + quad);
    lemma_mapped_tail(a, b, c, d);
    let t = seq![0xffffu16] + tail_groups(v4);
    assert(t =~= seq![0xffffu16, ip.s6, ip.s7]);
    assert(Seq::<u16>::empty() + zeros(5) + t =~= ip.segments());
}

proof fn lemma_v6_plain(ip: Ipv6Addr)
    requires
        !mapped(ip),
    ensures
        ip_of(v6_form(ip)) == Some(IpAddr::V6(ip)),
{
    let g = ip.segments();
    let (start, len) = longest_run(g, 0);
    let s = v6_form(ip);
    lemma_longest_run(g, 0);
    reveal_strlit("::");
    if len > 1 {
        let h = g.take(start);
        let t = g.skip(start + len);
        let front = joined(hexes(h), ":"@);
        let back = joined(hexes(t), ":"@);
        lemma_hexes(h);
        lemma_hexes(t);
        if h.len() > 0 {
            lemma_joined_shape(hexes(h));
        }
        if t.len() > 0 {
            lemma_joined_shape(hexes(t));
        }
        let at = front.len() as int;
        assert(s =~= front + "::"@ + back);
        assert(s[at] == ':' && s[at + 1] == ':');
        assert forall|k: int| 0 <= k < at implies (#[trigger] s[k]) != ':' || s[k + 1] != ':' by {
            assert(s[k] == front[k]);
            if k < at - 1 {
                assert(s[k + 1] == front[k + 1]);
            } else {
                assert(front[k] == front.last());
            }
        }
        lemma_double_colon_at(s, 0, at);
        lemma_colon_is_not_v4(s, at);
        assert(s.take(at) =~= front);
        assert(s.skip(at + 2) =~= back);
        lemma_stretch(h, false);
        lemma_stretch(t, true);
        assert(h + zeros(8 - h.len() - t.len()) + t =~= g);
    } else {
        lemma_hexes(g);
        lemma_joined_shape(hexes(g));
        lemma_no_double_colon(s, 0);
        lemma_no_dot_is_not_v4(s);
        lemma_stretch(g, true);
    }
}

/// An address that is written and read again is the same address.
pub proof fn law_written_addresses_read_back(ip: IpAddr)
    ensures
        ip_of(ip_form(ip)) == Some(ip),
{
    match ip {
        IpAddr::V4(v4) => {
            lemma_quad(v4.a, v4.b, v4.c, v4.d);
        },
        IpAddr::V6(v6) => {
            if mapped(v6) {
                lemma_v6_mapped(v6);
            } else {
                lemma_v6_plain(v6);
            }
        },
    }
}

/// Addresses that are written alike are one address.
pub proof fn law_one_form_per_address(a: IpAddr, b: IpAddr)
    requires
        ip_form(a) == ip_form(b),
    ensures
        a == b,
{
    law_written_addresses_read_back(a);
    law_written_addresses_read_back(b);
}

/// What a digit is worth: as much as its place among the sixteen, great letters like small ones; in
/// decimal numbers the letters are no digits.
pub proof fn law_worth_of_digits(c: char, k: int)
    ensures
        0 <= k < 16 ==> digit_value(
            seq![
                '0',
                '1',
                '2',
                '3',
                '4',
                '5',
                '6',
                '7',
                '8',
                '9',
                'a',
                'b',
                'c',
                'd',
                'e',
                'f',
            ][k],
            16,
        ) == Some(k),
        10 <= k < 16 ==> digit_value(seq!['A', 'B', 'C', 'D', 'E', 'F'][k - 10], 16) == Some(k),
        0 <= k < 10 ==> digit_value(
            seq!['0', '1', '2', '3', '4', '5', '6', '7', '8', '9'][k],
            10,
        ) == Some(k),
        digit_value(c, 10) is Some ==> '0' <= c && c <= '9',
        digit_value(c, 16) is Some ==> '0' <= c && c <= '9' || 'a' <= c && c <= 'f' || 'A' <= c && c
            <= 'F',
{
    let d = seq![
        '0',
        '1',
        '2',
        '3',
        '4',
        '5',
        '6',
        '7',
        '8',
        '9',
        'a',
        'b',
        'c',
        'd',
        'e',
        'f',
    ];
    assert(d[0] == '0' && d[1] == '1' && d[2] == '2' && d[3] == '3' && d[4] == '4' && d[5] == '5');
    assert(d[6] == '6' && d[7] == '7' && d[8] == '8' && d[9] == '9' && d[10] == 'a' && d[11] == 'b');
    assert(d[12] == 'c' && d[13] == 'd' && d[14] == 'e' && d[15] == 'f');
    let g = seq!['A', 'B', 'C', 'D', 'E', 'F'];
    assert(g[0] == 'A' && g[1] == 'B' && g[2] == 'C' && g[3] == 'D' && g[4] == 'E' && g[5] == 'F');
    let t = seq!['0', '1', '2', '3', '4', '5', '6', '7', '8', '9'];
    assert(t[0] == '0' && t[1] == '1' && t[2] == '2' && t[3] == '3' && t[4] == '4' && t[5] == '5');
    assert(t[6] == '6' && t[7] == '7' && t[8] == '8' && t[9] == '9');
}

/// A number is read from digits: each one more makes what stands before it worth so much more.
pub proof fn law_numbers_from_digits(s: Seq<char>, c: char, n: nat)
    ensures
        number(s, 10) is Some && digit_value(c, 10) is Some ==> number(s.push(c), 10) == Some(
            number(s, 10)->0 * 10 + digit_value(c, 10)->0,
        ),
        number(s, 16) is Some && digit_value(c, 16) is Some ==> number(s.push(c), 16) == Some(
            number(s, 16)->0 * 16 + digit_value(c, 16)->0,
        ),
        digit_value(c, 10) is None ==> number(s.push(c), 10) is None,
        digit_value(c, 16) is None ==> number(s.push(c), 16) is None,
        number(decimal(n), 10) == Some(n as int),
        number(hexadecimal(n), 16) == Some(n as int),
{
    assert(s.push(c).drop_last() =~= s);
    lemma_number_of_decimal(n);
    lemma_number_of_hexadecimal(n);
}

proof fn lemma_number_of_decimal(n: nat)
    ensures
        number(decimal(n), 10) == Some(n as int),
    decreases n,
{
    reveal_with_fuel(number, 2);
    let d = (n % 10) as int;
    assert(digit_value(digit(d), 10) == Some(d));
    if n < 10 {
        assert(decimal(n).drop_last() =~= Seq::<char>::empty());
    } else {
        lemma_number_of_decimal(n / 10);
        assert(decimal(n).drop_last() =~= decimal(n / 10));
    }
}

proof fn lemma_number_of_hexadecimal(n: nat)
    ensures
        number(hexadecimal(n), 16) == Some(n as int),
    decreases n,
{
    reveal_with_fuel(number, 2);
    let d = (n % 16) as int;
    assert(digit_value(digit(d), 16) == Some(d));
    if n < 16 {
        assert(hexadecimal(n).drop_last() =~= Seq::<char>::empty());
    } else {
        lemma_number_of_hexadecimal(n / 16);
        assert(hexadecimal(n).drop_last() =~= hexadecimal(n / 16));
    }
}

pub proof fn lemma_only_digits(s: Seq<char>, base: int, i: int)
    requires
        number(s, base) is Some,
        0 <= i < s.len(),
    ensures
        digit_value(s[i], base) is Some,
    decreases s.len(),
{
    if i < s.len() - 1 {
        lemma_only_digits(s.drop_last(), base, i);
    }
}

proof fn lemma_decimal_of_its_number(s: Seq<char>)
    requires
        s.len() > 0,
        s.len() == 1 || s[0] != '0',
        number(s, 10) is Some,
    ensures
        number(s, 10)->0 >= 0,
        s == decimal(number(s, 10)->0 as nat),
    decreases s.len(),
{
    let front = s.drop_last();
    let d = digit_value(s.last(), 10)->0;
    assert(front.push(s.last()) =~= s);
    assert(digit(d) == s.last());
    if s.len() == 1 {
        assert(front =~= Seq::<char>::empty());
        assert(decimal(d as nat) =~= s);
    } else {
        assert(front[0] == s[0]);
        lemma_decimal_of_its_number(front);
        let n = number(front, 10)->0;
        if n == 0 {
            assert(decimal(0)[0] == '0');
        }
        assert((n * 10 + d) / 10 == n && (n * 10 + d) % 10 == d);
    }
}

/// There is one way to write an IPv4 address: four numbers without leading zeros and with dots between
/// them. Whatever else is written is none.
pub proof fn law_one_spelling_of_an_ipv4_address(s: Seq<char>, ip: Ipv4Addr)
    ensures
        v4_of(s) == Some(ip) <==> s == decimal(ip.a as nat) + seq!['.'] + decimal(ip.b as nat)
            + seq!['.'] + decimal(ip.c as nat) + seq!['.'] + decimal(ip.d as nat),
{
    let form = decimal(ip.a as nat) + seq!['.'] + decimal(ip.b as nat) + seq!['.'] + decimal(
        ip.c as nat,
    ) + seq!['.'] + decimal(ip.d as nat);
    lemma_quad(ip.a, ip.b, ip.c, ip.d);
    assert(dotted_quad(ip.a, ip.b, ip.c, ip.d) =~= form);
    if v4_of(s) == Some(ip) {
        let p = pieces(s, seq!['.']);
        lemma_pieces_joined_again(s);
        lemma_decimal_of_its_number(p[0]);
        lemma_decimal_of_its_number(p[1]);
        lemma_decimal_of_its_number(p[2]);
        lemma_decimal_of_its_number(p[3]);
        reveal_strlit(".");
        reveal_with_fuel(joined, 4);
        assert(p.drop_last().drop_last().drop_last()[0] == p[0]);
        assert(joined(p, "."@) =~= p[0] + "."@ + p[1] + "."@ + p[2] + "."@ + p[3]);
        assert(s =~= form);
    }
}

/// Whether texts are groups of one to four hexadecimal digits that are worth the values.
pub open spec fn spell(parts: Seq<Seq<char>>, values: Seq<u16>) -> bool {
    &&& parts.len() == values.len()
    &&& forall|i: int|
        0 <= i < parts.len() ==> 1 <= (#[trigger] parts[i]).len() <= 4 && number(parts[i], 16)
            == Some(values[i] as int)
}

proof fn lemma_spelled(parts: Seq<Seq<char>>, values: Seq<u16>)
    requires
        spell(parts, values),
    ensures
        plain(parts),
        filled(parts),
        groups_of(parts) == Some(values),
    decreases parts.len(),
{
    assert forall|i: int, j: int|
        0 <= i < parts.len() && 0 <= j < parts[i].len() implies #[trigger] parts[i][j] != ':'
        && parts[i][j] != '.' by {
        lemma_only_digits(parts[i], 16, j);
    }
    if parts.len() > 0 {
        let p = parts.drop_last();
        let v = values.drop_last();
        assert forall|i: int| 0 <= i < p.len() implies 1 <= (#[trigger] p[i]).len() <= 4 && number(
            p[i],
            16,
        ) == Some(v[i] as int) by {
            assert(p[i] == parts[i]);
        }
        lemma_spelled(p, v);
        assert(parts[parts.len() - 1].len() <= 4);
        assert(v.push(values.last()) =~= values);
    } else {
        assert(values =~= Seq::<u16>::empty());
    }
}

proof fn lemma_spelled_stretch(parts: Seq<Seq<char>>, values: Seq<u16>, quad: bool)
    requires
        spell(parts, values),
    ensures
        stretch(joined(parts, ":"@), quad) == Some(values),
{
    lemma_spelled(parts, values);
    if parts.len() == 0 {
        assert(values =~= Seq::<u16>::empty());
    } else {
        lemma_joined_shape(parts);
        lemma_pieces_joined(parts);
        let last = parts.last();
        assert forall|i: int| 0 <= i < last.len() implies #[trigger] last[i] != '.' by {
            assert(parts[parts.len() - 1][i] != ':');
        }
        lemma_no_dot_is_not_v4(last);
    }
}

/// Every spelling of an IPv6 address in groups is read: eight groups of one to four digits, great or
/// small, with colons between them; or fewer, with two colons in a row that stand for the zeros between
/// the groups before them and those behind.
pub proof fn law_spellings_of_an_ipv6_address(
    front: Seq<Seq<char>>,
    h: Seq<u16>,
    back: Seq<Seq<char>>,
    t: Seq<u16>,
)
    requires
        spell(front, h),
        spell(back, t),
    ensures
        h.len() == 8 ==> ip_of(joined(front, ":"@)) == Some(IpAddr::V6(Ipv6Addr::of(h))),
        h.len() + t.len() <= 7 ==> ip_of(joined(front, ":"@) + "::"@ + joined(back, ":"@)) == Some(
            IpAddr::V6(
                Ipv6Addr::of(
                    h + Seq::new((8 - h.len() - t.len()) as nat, |i: int| 0u16) + t,
                ),
            ),
        ),
{
    lemma_spelled(front, h);
    lemma_spelled(back, t);
    reveal_strlit("::");
    if h.len() == 8 {
        let s = joined(front, ":"@);
        lemma_joined_shape(front);
        lemma_no_double_colon(s, 0);
        lemma_no_dot_is_not_v4(s);
        lemma_spelled_stretch(front, h, true);
    }
    if h.len() + t.len() <= 7 {
        let a = joined(front, ":"@);
        let b = joined(back, ":"@);
        let s = a + "::"@ + b;
        if front.len() > 0 {
            lemma_joined_shape(front);
        }
        let at = a.len() as int;
        assert(s[at] == ':' && s[at + 1] == ':');
        assert forall|k: int| 0 <= k < at implies (#[trigger] s[k]) != ':' || s[k + 1] != ':' by {
            assert(s[k] == a[k]);
            if k < at - 1 {
                assert(s[k + 1] == a[k + 1]);
            } else {
                assert(a[k] == a.last());
            }
        }
        lemma_double_colon_at(s, 0, at);
        lemma_colon_is_not_v4(s, at);
        assert(s.take(at) =~= a);
        assert(s.skip(at + 2) =~= b);
        lemma_spelled_stretch(front, h, false);
        lemma_spelled_stretch(back, t, true);
        let n = 8 - h.len() - t.len();
        assert(zeros(n) =~= Seq::new(n as nat, |i: int| 0u16));
    }
}

/// Whether a character occurs in addresses.
pub open spec fn in_addresses(c: char) -> bool {
    '0' <= c && c <= '9' || 'a' <= c && c <= 'f' || 'A' <= c && c <= 'F' || c == ':' || c == '.'
}

proof fn lemma_chars_of_v4(s: Seq<char>, i: int)
    requires
        v4_of(s) is Some,
        0 <= i < s.len(),
    ensures
        in_addresses(s[i]),
{
    let seps = seq!['.'];
    assert forall|c: char| #[trigger] seps.contains(c) implies c == '.' by {}
    if !seps.contains(s[i]) {
        let (k, j) = lemma_in_a_piece(s, seps, i);
        let p = pieces(s, seps);
        assert(k == 0 || k == 1 || k == 2 || k == 3);
        lemma_only_digits(p[k], 10, j);
    }
}

proof fn lemma_groups_each(p: Seq<Seq<char>>, k: int)
    requires
        groups_of(p) is Some,
        0 <= k < p.len(),
    ensures
        group(p[k]) is Some,
    decreases p.len(),
{
    if k < p.len() - 1 {
        lemma_groups_each(p.drop_last(), k);
    }
}

proof fn lemma_chars_of_stretch(s: Seq<char>, quad: bool, i: int)
    requires
        stretch(s, quad) is Some,
        0 <= i < s.len(),
    ensures
        in_addresses(s[i]),
{
    let seps = seq![':'];
    assert forall|c: char| #[trigger] seps.contains(c) implies c == ':' by {}
    if !seps.contains(s[i]) {
        let (k, j) = lemma_in_a_piece(s, seps, i);
        let p = pieces(s, seps);
        if quad && v4_of(p.last()) is Some {
            if k == p.len() - 1 {
                lemma_chars_of_v4(p[k], j);
            } else {
                lemma_groups_each(p.drop_last(), k);
                lemma_only_digits(p[k], 16, j);
            }
        } else {
            lemma_groups_each(p, k);
            lemma_only_digits(p[k], 16, j);
        }
    }
}

proof fn lemma_double_colon_is(s: Seq<char>, i: int)
    requires
        0 <= i,
    ensures
        double_colon(s, i) matches Some(at) ==> i <= at && at + 1 < s.len() && s[at] == ':' && s[at
            + 1] == ':',
    decreases s.len() - i,
{
    if i + 1 < s.len() && !(s[i] == ':' && s[i + 1] == ':') {
        lemma_double_colon_is(s, i + 1);
    }
}

/// Nothing but digits, colons and dots ever passes for an address.
pub proof fn law_addresses_are_plain_text(s: Seq<char>, i: int)
    requires
        ip_of(s) is Some,
        0 <= i < s.len(),
    ensures
        in_addresses(s[i]),
        s.len() > 0,
{
    if v4_of(s) is Some {
        lemma_chars_of_v4(s, i);
    } else {
        lemma_double_colon_is(s, 0);
        match double_colon(s, 0) {
            None => {
                lemma_chars_of_stretch(s, true, i);
            },
            Some(at) => {
                if i < at {
                    assert(s.take(at)[i] == s[i]);
                    lemma_chars_of_stretch(s.take(at), false, i);
                } else if i >= at + 2 {
                    assert(s.skip(at + 2)[i - at - 2] == s[i]);
                    lemma_chars_of_stretch(s.skip(at + 2), true, i - at - 2);
                }
            },
        }
    }
}

/// How an address with a port is written: the port behind a colon, an IPv6 address in brackets.
pub proof fn law_addresses_with_ports(v4: Ipv4Addr, v6: Ipv6Addr, port: u16)
    ensures
        socket_form(SocketAddr { ip: IpAddr::V4(v4), port }) == ip_form(IpAddr::V4(v4)) + ":"@
            + decimal(port as nat),
        socket_form(SocketAddr { ip: IpAddr::V6(v6), port }) == "["@ + ip_form(IpAddr::V6(v6))
            + "]:"@ + decimal(port as nat),
        v4_form(v4) == ip_form(IpAddr::V4(v4)),
        v6_form(v6) == ip_form(IpAddr::V6(v6)),
{
}

} // verus!
