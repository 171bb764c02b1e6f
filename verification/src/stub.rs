//! The local resolver: plain DNS on loopback in, DNS over HTTPS out.
//!
//! Queries and answers pass through untouched. The only message that is composed here is the
//! SERVFAIL for a query that could not be forwarded.

use vstd::prelude::*;
use vstd::slice::slice_subrange;

use crate::addr::{IpAddr, Ipv4Addr, Ipv6Addr, SocketAddr};
use crate::dnsmsg::addresses;
use crate::endpoints::{learn, push_unique, Adoption, Endpoints};
use crate::iptext::socket_text;
use crate::text::push_decimal;
#[allow(unused_imports)]
use vstd::utf8::encode_utf8;
#[allow(unused_imports)]
use crate::dnsmsg::{
    answer_addresses, be16, counted, encoded, label_fault, labels_of, law_a_query_is_one_question,
    query, two_bytes,
};
#[allow(unused_imports)]
use crate::endpoints::{answer_adoption, answered, unique_all};
#[allow(unused_imports)]
use crate::iptext::socket_form;
#[allow(unused_imports)]
use crate::text::decimal;

verus! {

pub const DNS_PORT: u16 = 53;

/// The largest datagram that is sent; anything larger belongs on TCP.
pub const MAX_UDP: usize = 4096;

/// How many failed queries in a row make a search for the resolver worth while.
pub const FAILURES_BEFORE_RESCUE: u32 = 5;

/// How many addresses one query may try.
pub const TRIES_PER_QUERY: usize = 3;

/// The offset behind the uncompressed name that starts at `i`.
pub open spec fn plain_name_end(q: Seq<u8>, i: int) -> Option<int>
    decreases (if i < q.len() { q.len() - i } else { 0 }),
{
    if i < 0 || i >= q.len() || q[i] >= 0x40 {
        None
    } else if q[i] == 0 {
        Some(i + 1)
    } else {
        plain_name_end(q, i + 1 + q[i])
    }
}

/// How much of a query is echoed: the header, and the question if there is exactly one. Nothing
/// where the query is too short or the question cannot be read.
pub open spec fn echoed(q: Seq<u8>) -> Option<int> {
    if q.len() < 12 {
        None
    } else if be16(q, 4) != 1 {
        Some(12)
    } else {
        match plain_name_end(q, 12) {
            Some(e) => if e + 4 <= q.len() {
                Some(e + 4)
            } else {
                None
            },
            None => None,
        }
    }
}

/// The SERVFAIL for a query: its identifier, opcode, recursion-desired bit and question come back,
/// it is marked as a response, recursion is available, and it carries no records.
pub open spec fn servfail_for(q: Seq<u8>, end: int) -> Seq<u8> {
    seq![
        q[0],
        q[1],
        (q[2] & 0b0111_1001) | 0b1000_0000,
        0b1000_0010,
        0,
        if be16(q, 4) == 1 {
            1u8
        } else {
            0
        },
        0,
        0,
        0,
        0,
        0,
        0,
    ] + q.subrange(12, end)
}

fn skip_plain_name(q: &[u8]) -> (r: Option<usize>)
    ensures
        match r {
            Some(e) => plain_name_end(q@, 12) == Some(e as int) && e <= q@.len(),
            None => plain_name_end(q@, 12) is None,
        },
{
    let mut i: usize = 12;
    loop
        invariant
            plain_name_end(q@, i as int) == plain_name_end(q@, 12),
        decreases (if i < q@.len() { q@.len() - i } else { 0 }),
    {
        if i >= q.len() {
            return None;
        }
        let label: usize = q[i] as usize;
        if label >= 0x40 {
            return None;
        }
        if label == 0 {
            return Some(i + 1);
        }
        if q.len() - i - 1 <= label {
            assert(plain_name_end(q@, i + 1 + label) is None);
            return None;
        }
        i = i + 1 + label;
    }
}

/// Composes the SERVFAIL for a query that could not be forwarded; nothing for one that is no
/// query.
pub fn servfail(query: &[u8]) -> (r: Option<Vec<u8>>)
    ensures
        match r {
            Some(m) => echoed(query@) is Some && m@ == servfail_for(query@, echoed(query@)->0),
            None => echoed(query@) is None,
        },
{
    if query.len() < 12 {
        return None;
    }
    let one: bool = query[4] == 0 && query[5] == 1;
    assert(one == (be16(query@, 4) == 1));
    let mut end: usize = 12;
    if one {
        end = match skip_plain_name(query) {
            Some(e) => e,
            None => return None,
        };
        proof {
            lemma_plain_name_end(query@, 12);
        }
        if query.len() - end < 4 {
            return None;
        }
        end = end + 4;
    }
    let mut out: Vec<u8> = Vec::new();
    out.push(query[0]);
    out.push(query[1]);
    out.push((query[2] & 0b0111_1001) | 0b1000_0000);
    out.push(0b1000_0010);
    out.push(0);
    out.push(if one { 1 } else { 0 });
    out.push(0);
    out.push(0);
    out.push(0);
    out.push(0);
    out.push(0);
    out.push(0);
    out.extend_from_slice(slice_subrange(query, 12, end));
    assert(out@ =~= servfail_for(query@, end as int));
    Some(out)
}

proof fn lemma_plain_name_end(q: Seq<u8>, i: int)
    requires
        12 <= i,
    ensures
        plain_name_end(q, i) matches Some(e) ==> i < e <= q.len(),
    decreases (if i < q.len() { q.len() - i } else { 0 }),
{
    if i < q.len() && 0 < q[i] < 0x40 {
        lemma_plain_name_end(q, i + 1 + q[i]);
    }
}

/// A SERVFAIL answers the query it was made for: the identifier, the opcode, the wish for
/// recursion and the question are the query's own; it is a response with code 2 that carries no
/// records, and nothing stands behind the question. Answered once more, it is the same message.
pub proof fn law_servfail_answers_its_query(q: Seq<u8>)
    requires
        echoed(q) is Some,
    ensures
        ({
            let end = echoed(q)->0;
            let r = servfail_for(q, end);
            &&& 12 <= end <= q.len()
            &&& r.len() == end
            &&& be16(r, 0) == be16(q, 0)
            &&& r[2] & 0x80 == 0x80
            &&& r[2] & 0x79 == q[2] & 0x79
            &&& r[2] & 0x06 == 0
            &&& r[3] % 16 == 2
            &&& be16(r, 4) == (if be16(q, 4) == 1 {
                1int
            } else {
                0
            })
            &&& be16(r, 6) == 0
            &&& be16(r, 8) == 0
            &&& be16(r, 10) == 0
            &&& r.skip(12) == q.subrange(12, end)
            &&& echoed(r) == Some(end)
            &&& servfail_for(r, end) == r
        }),
{
    let end = echoed(q)->0;
    let r = servfail_for(q, end);
    lemma_plain_name_end(q, 12);
    let b = q[2];
    assert(((b & 0b0111_1001) | 0b1000_0000) & 0x80 == 0x80) by (bit_vector);
    assert(((b & 0b0111_1001) | 0b1000_0000) & 0x79 == b & 0x79) by (bit_vector);
    assert(((b & 0b0111_1001) | 0b1000_0000) & 0x06 == 0) by (bit_vector);
    assert((((b & 0b0111_1001) | 0b1000_0000) & 0b0111_1001) | 0b1000_0000 == (b & 0b0111_1001)
        | 0b1000_0000) by (bit_vector);
    assert(r.skip(12) =~= q.subrange(12, end));
    if be16(q, 4) == 1 {
        lemma_same_name_end(q, r, end, 12);
    }
    assert(servfail_for(r, end) =~= r);
}

proof fn lemma_same_name_end(q: Seq<u8>, r: Seq<u8>, end: int, i: int)
    requires
        12 <= i,
        r.len() == end <= q.len(),
        forall|k: int| 12 <= k < end ==> q[k] == r[k],
        plain_name_end(q, i) is Some,
        plain_name_end(q, i)->0 + 4 <= end,
    ensures
        plain_name_end(r, i) == plain_name_end(q, i),
    decreases (if i < q.len() { q.len() - i } else { 0 }),
{
    lemma_plain_name_end(q, i);
    assert(q[i] == r[i]);
    if q[i] != 0 {
        lemma_same_name_end(q, r, end, i + 1 + q[i]);
    }
}

/// What the resolver counts.
#[derive(Debug)]
pub struct Stats {
    pub queries: u64,
    pub errors: u64,
    pub last_error: Option<String>,
}

impl Default for Stats {
    fn default() -> (r: Stats)
        ensures
            r.queries == 0,
            r.errors == 0,
            r.last_error is None,
    {
        Stats { queries: 0, errors: 0, last_error: None }
    }
}

impl Stats {
    /// Counts a query. The counter wraps around.
    pub fn record_query(&mut self)
        ensures
            final(self).queries as int == (old(self).queries + 1) % 0x1_0000_0000_0000_0000,
            final(self).errors == old(self).errors,
            final(self).last_error == old(self).last_error,
    {
        self.queries = self.queries.wrapping_add(1);
    }

    /// Counts an error and keeps what it says. The counter wraps around.
    pub fn record_error(&mut self, e: String)
        ensures
            final(self).errors as int == (old(self).errors + 1) % 0x1_0000_0000_0000_0000,
            final(self).last_error == Some(e),
            final(self).queries == old(self).queries,
    {
        self.errors = self.errors.wrapping_add(1);
        self.last_error = Some(e);
    }

    /// What was counted so far.
    pub fn snapshot(&self) -> (r: (u64, u64, Option<String>))
        ensures
            r.0 == self.queries,
            r.1 == self.errors,
            match r.2 {
                Some(e) => self.last_error is Some && e@ == self.last_error->0@,
                None => self.last_error is None,
            },
    {
        let last: Option<String> = match &self.last_error {
            Some(e) => Some(e.clone()),
            None => None,
        };
        (self.queries, self.errors, last)
    }
}

/// What notices that the resolver has gone away.
#[derive(Clone, Copy, Debug, PartialEq, Eq, Structural)]
pub struct Recovery {
    /// Failed queries in a row.
    pub failures: u32,
    /// Whether a search is under way.
    pub searching: bool,
}

impl Recovery {
    /// Nothing has failed yet.
    pub fn new() -> (r: Recovery)
        ensures
            r == (Recovery { failures: 0, searching: false }),
    {
        Recovery { failures: 0, searching: false }
    }

    /// A query was answered.
    pub fn success(&mut self)
        ensures
            *final(self) == (Recovery { failures: 0, ..*old(self) }),
    {
        self.failures = 0;
    }

    /// A query was not answered. Every so many failures in a row a search starts, unless one is
    /// under way. The counter wraps around.
    pub fn failure(&mut self) -> (r: bool)
        ensures
            final(self).failures as int == (old(self).failures + 1) % 0x1_0000_0000,
            ({
                let due = final(self).failures >= FAILURES_BEFORE_RESCUE && final(self).failures
                    % FAILURES_BEFORE_RESCUE == 0;
                &&& r == (due && !old(self).searching)
                &&& final(self).searching == (old(self).searching || due)
            }),
    {
        self.failures = self.failures.wrapping_add(1);
        if self.failures >= FAILURES_BEFORE_RESCUE && self.failures % FAILURES_BEFORE_RESCUE == 0 {
            self.search()
        } else {
            false
        }
    }

    /// Asks for a search; there is never more than one.
    pub fn search(&mut self) -> (r: bool)
        ensures
            r == !old(self).searching,
            *final(self) == (Recovery { searching: true, ..*old(self) }),
    {
        if self.searching {
            return false;
        }
        self.searching = true;
        true
    }

    /// The search is over; where it found something, the clients were built anew if `rebuilt`.
    pub fn searched(&mut self, rebuilt: bool)
        ensures
            final(self).searching == false,
            final(self).failures == (if rebuilt {
                0
            } else {
                old(self).failures
            }),
    {
        self.searching = false;
        if rebuilt {
            self.failures = 0;
        }
    }
}

/// The routes upstream, one per address, and which of them to start with.
#[derive(Clone, Copy, Debug, PartialEq, Eq, Structural)]
pub struct Upstream {
    pub routes: usize,
    pub preferred: usize,
}

/// One query on its way: where it started, and how many routes it has tried.
#[derive(Clone, Copy, Debug, PartialEq, Eq, Structural)]
pub struct Forward {
    pub start: usize,
    pub tried: usize,
}

/// The route `k` places behind `start` in a ring of `n`.
pub open spec fn behind(start: int, k: int, n: int) -> int {
    (start + k) % n
}

/// How many of `n` routes one query may try.
pub open spec fn tries(n: int) -> int {
    if n < TRIES_PER_QUERY {
        n
    } else {
        TRIES_PER_QUERY as int
    }
}

impl Upstream {
    /// Whether there is a route at all.
    pub open spec fn valid(self) -> bool {
        self.routes > 0
    }

    /// The routes to so many addresses; at least one is needed.
    pub fn build(addrs: &Vec<SocketAddr>) -> (r: Option<Upstream>)
        ensures
            match r {
                Some(u) => u.valid() && u == (Upstream {
                    routes: addrs@.len() as usize,
                    preferred: 0,
                }),
                None => addrs@.len() == 0,
            },
    {
        if addrs.len() == 0 {
            return None;
        }
        Some(Upstream { routes: addrs.len(), preferred: 0 })
    }

    /// Starts a query at the preferred route.
    pub fn begin(&self) -> (r: Forward)
        requires
            self.valid(),
        ensures
            r == (Forward { start: (self.preferred % self.routes) as usize, tried: 0 }),
            r.start < self.routes,
    {
        Forward { start: self.preferred % self.routes, tried: 0 }
    }

    /// The route that a query tries next, unless it has tried as many as it may.
    pub fn route(&self, f: &Forward) -> (r: Option<usize>)
        requires
            self.valid(),
            f.start < self.routes,
        ensures
            match r {
                Some(i) => f.tried < tries(self.routes as int) && i as int == behind(
                    f.start as int,
                    f.tried as int,
                    self.routes as int,
                ) && i < self.routes,
                None => f.tried >= tries(self.routes as int),
            },
    {
        if f.tried >= TRIES_PER_QUERY || f.tried >= self.routes {
            return None;
        }
        Some(ring(f.start, f.tried, self.routes))
    }

    /// The route that a query tried answered. A route other than the first becomes the preferred
    /// one.
    pub fn answered(&mut self, f: &Forward)
        requires
            old(self).valid(),
            f.start < old(self).routes,
            f.tried < tries(old(self).routes as int),
        ensures
            final(self).routes == old(self).routes,
            final(self).preferred as int == (if f.tried > 0 {
                behind(f.start as int, f.tried as int, old(self).routes as int)
            } else {
                old(self).preferred as int
            }),
    {
        if f.tried > 0 {
            self.preferred = ring(f.start, f.tried, self.routes);
        }
    }

    /// The route that a query tried did not answer. After the last try the routes behind it
    /// become the preferred ones.
    pub fn failed(&mut self, f: &mut Forward)
        requires
            old(self).valid(),
            old(f).start < old(self).routes,
            old(f).tried < tries(old(self).routes as int),
        ensures
            final(self).routes == old(self).routes,
            *final(f) == (Forward { start: old(f).start, tried: (old(f).tried + 1) as usize }),
            final(self).preferred as int == (if old(f).tried + 1 == tries(
                old(self).routes as int,
            ) {
                behind(old(f).start as int, old(f).tried + 1, old(self).routes as int)
            } else {
                old(self).preferred as int
            }),
    {
        f.tried = f.tried + 1;
        if f.tried == TRIES_PER_QUERY || f.tried == self.routes {
            self.preferred = ring(f.start, f.tried, self.routes);
        }
    }
}

fn ring(start: usize, k: usize, n: usize) -> (r: usize)
    requires
        start < n,
        k <= n,
    ensures
        r as int == behind(start as int, k as int, n as int),
        r < n,
{
    let ghost s = start as int + k as int;
    if k < n - start {
        assert(s % (n as int) == s) by (nonlinear_arith)
            requires
                0 <= s < n,
        ;
        start + k
    } else {
        assert(s % (n as int) == s - n) by (nonlinear_arith)
            requires
                n <= s < 2 * n,
        ;
        k - (n - start)
    }
}

/// One query tries each of its routes once, as many as it may, and starts with the preferred one.
pub proof fn law_routes_of_a_query(start: int, n: int, i: int, j: int)
    requires
        0 <= start < n,
        0 <= i < j < tries(n),
    ensures
        0 <= behind(start, i, n) < n,
        behind(start, 0, n) == start,
        behind(start, i, n) != behind(start, j, n),
        tries(n) == (if n < 3 {
            n
        } else {
            3
        }),
{
    lemma_once_round(start, n);
    lemma_once_round(start + i, n);
    lemma_once_round(start + j, n);
}

proof fn lemma_once_round(a: int, n: int)
    requires
        0 <= a < 2 * n,
    ensures
        a % n == (if a < n {
            a
        } else {
            a - n
        }),
{
    if a < n {
        assert(a % n == a) by (nonlinear_arith)
            requires
                0 <= a < n,
        ;
    } else {
        assert(a % n == a - n) by (nonlinear_arith)
            requires
                n <= a < 2 * n,
        ;
    }
}

/// Why the resolver's reply is no answer.
#[derive(Clone, Copy, Debug, PartialEq, Eq, Structural)]
pub enum ReplyError {
    /// The HTTP status is no success.
    Http(u16),
    /// So few bytes are no DNS message.
    Short(usize),
}

impl ReplyError {
    /// What the error says to a person; `status` is the HTTP status in words.
    pub open spec fn says(self, status: Seq<char>) -> Seq<char> {
        match self {
            ReplyError::Http(_) => "resolver answered HTTP "@ + status,
            ReplyError::Short(n) => "resolver answered "@ + decimal(n as nat)
                + " bytes, too short for DNS"@,
        }
    }

    /// The error in words; `status` is the HTTP status in words.
    pub fn message(&self, status: &str) -> (r: String)
        ensures
            r@ == self.says(status@),
    {
        match self {
            ReplyError::Http(_) => {
                let mut out = "resolver answered HTTP ".to_owned();
                out.append(status);
                out
            },
            ReplyError::Short(n) => {
                let mut out = "resolver answered ".to_owned();
                push_decimal(&mut out, *n as u64);
                out.append(" bytes, too short for DNS");
                out
            },
        }
    }
}

/// The answer in an HTTP reply, untouched. It fails where the status is no success, or the body
/// shorter than a DNS header.
pub fn checked_reply(status: u16, body: Vec<u8>) -> (r: Result<Vec<u8>, ReplyError>)
    ensures
        match r {
            Ok(m) => 200 <= status < 300 && body@.len() >= 12 && m == body,
            Err(ReplyError::Http(s)) => !(200 <= status < 300) && s == status,
            Err(ReplyError::Short(n)) => 200 <= status < 300 && body@.len() < 12 && n
                == body@.len(),
        },
{
    if status < 200 || status >= 300 {
        return Err(ReplyError::Http(status));
    }
    if body.len() < 12 {
        return Err(ReplyError::Short(body.len()));
    }
    Ok(body)
}

/// What a client on UDP gets: the answer, cut at the largest datagram, or a SERVFAIL where there
/// is none; nothing where the query cannot be answered at all.
pub fn udp_reply(query: &[u8], answer: Option<Vec<u8>>) -> (r: Option<Vec<u8>>)
    ensures
        match answer {
            Some(a) => r is Some && r->0@ == (if a@.len() > MAX_UDP {
                a@.take(MAX_UDP as int)
            } else {
                a@
            }),
            None => match r {
                Some(m) => echoed(query@) is Some && m@ == servfail_for(
                    query@,
                    echoed(query@)->0,
                ),
                None => echoed(query@) is None,
            },
        },
{
    match answer {
        Some(a) => {
            let mut out = a;
            if out.len() > MAX_UDP {
                out.truncate(MAX_UDP);
                assert(out@ =~= a@.take(MAX_UDP as int));
            }
            Some(out)
        },
        None => servfail(query),
    }
}

/// How long the query is that two bytes on TCP announce; a length of zero ends the connection.
pub fn tcp_length(high: u8, low: u8) -> (r: Option<usize>)
    ensures
        r == (if high == 0 && low == 0 {
            None
        } else {
            Some((high * 256 + low) as usize)
        }),
{
    let len: usize = high as usize * 256 + low as usize;
    if len == 0 {
        None
    } else {
        Some(len)
    }
}

/// A message on TCP: its length in two bytes, and the message.
pub open spec fn framed(m: Seq<u8>) -> Seq<u8> {
    two_bytes((m.len() % 65536) as u16) + m
}

/// What a client on TCP gets, with its length in front: the answer, or a SERVFAIL where there is
/// none; nothing where the query cannot be answered at all.
pub fn tcp_reply(query: &[u8], answer: Option<Vec<u8>>) -> (r: Option<Vec<u8>>)
    ensures
        match answer {
            Some(a) => r is Some && r->0@ == framed(a@),
            None => match r {
                Some(m) => echoed(query@) is Some && m@ == framed(
                    servfail_for(query@, echoed(query@)->0),
                ),
                None => echoed(query@) is None,
            },
        },
{
    let message: Vec<u8> = match answer {
        Some(a) => a,
        None => match servfail(query) {
            Some(m) => m,
            None => return None,
        },
    };
    let len: usize = message.len() % 65536;
    let mut out: Vec<u8> = Vec::new();
    out.push((len / 256) as u8);
    out.push((len % 256) as u8);
    out.extend_from_slice(message.as_slice());
    assert(out@ =~= framed(message@));
    Some(out)
}

/// A framed message is announced with its own length, as long as two bytes can hold it.
pub proof fn law_frames_announce_their_length(m: Seq<u8>)
    requires
        m.len() < 65536,
    ensures
        be16(framed(m), 0) == m.len(),
        framed(m).skip(2) == m,
{
    assert(framed(m).skip(2) =~= m);
}

/// What became of a query: its counters move, and a failure may call for a search.
pub fn settle(stats: &mut Stats, recovery: &mut Recovery, error: Option<String>) -> (r: bool)
    ensures
        match error {
            None => !r && *final(recovery) == (Recovery { failures: 0, ..*old(recovery) })
                && *final(stats) == *old(stats),
            Some(e) => {
                &&& final(stats).errors as int == (old(stats).errors + 1)
                    % 0x1_0000_0000_0000_0000
                &&& final(stats).last_error == Some(e)
                &&& final(stats).queries == old(stats).queries
                &&& final(recovery).failures as int == (old(recovery).failures + 1)
                    % 0x1_0000_0000
                &&& r == (final(recovery).failures >= FAILURES_BEFORE_RESCUE
                    && final(recovery).failures % FAILURES_BEFORE_RESCUE == 0
                    && !old(recovery).searching)
                &&& final(recovery).searching == (old(recovery).searching || r)
            },
        },
{
    match error {
        None => {
            recovery.success();
            false
        },
        Some(e) => {
            stats.record_error(e);
            recovery.failure()
        },
    }
}

/// The IPv4 addresses of a list.
pub open spec fn v4_of_list(s: Seq<IpAddr>) -> Seq<Ipv4Addr>
    decreases s.len(),
{
    if s.len() == 0 {
        Seq::empty()
    } else {
        match s.last() {
            IpAddr::V4(ip) => v4_of_list(s.drop_last()).push(ip),
            IpAddr::V6(_) => v4_of_list(s.drop_last()),
        }
    }
}

/// The IPv6 addresses of a list.
pub open spec fn v6_of_list(s: Seq<IpAddr>) -> Seq<Ipv6Addr>
    decreases s.len(),
{
    if s.len() == 0 {
        Seq::empty()
    } else {
        match s.last() {
            IpAddr::V6(ip) => v6_of_list(s.drop_last()).push(ip),
            IpAddr::V4(_) => v6_of_list(s.drop_last()),
        }
    }
}

/// Adds addresses to the list of their family, each once.
pub fn sort_addresses(addrs: &Vec<IpAddr>, v4: &mut Vec<Ipv4Addr>, v6: &mut Vec<Ipv6Addr>)
    ensures
        final(v4)@ == unique_all(old(v4)@, v4_of_list(addrs@)),
        final(v6)@ == unique_all(old(v6)@, v6_of_list(addrs@)),
{
    let ghost (start4, start6) = (v4@, v6@);
    let mut i: usize = 0;
    while i < addrs.len()
        invariant
            i <= addrs@.len(),
            v4@ == unique_all(start4, v4_of_list(addrs@.take(i as int))),
            v6@ == unique_all(start6, v6_of_list(addrs@.take(i as int))),
        decreases addrs@.len() - i,
    {
        proof {
            let t = addrs@.take(i as int);
            assert(addrs@.take(i + 1).drop_last() =~= t);
            match addrs@[i as int] {
                IpAddr::V4(ip) => {
                    assert(v4_of_list(t).push(ip).drop_last() =~= v4_of_list(t));
                },
                IpAddr::V6(ip) => {
                    assert(v6_of_list(t).push(ip).drop_last() =~= v6_of_list(t));
                },
            }
        }
        match addrs[i] {
            IpAddr::V4(ip) => {
                push_unique(v4, ip);
            },
            IpAddr::V6(ip) => {
                push_unique(v6, ip);
            },
        }
        i += 1;
    }
    assert(addrs@.take(i as int) =~= addrs@);
}

/// The addresses in the answers to the two questions where the resolver is; there may be no
/// answer to the second.
pub open spec fn located_ips(a: Seq<u8>, aaaa: Option<Seq<u8>>) -> Seq<IpAddr> {
    match aaaa {
        Some(m) => answer_addresses(a) + answer_addresses(m),
        None => answer_addresses(a),
    }
}

proof fn lemma_unique_all_twice<T>(s: Seq<T>, a: Seq<T>, b: Seq<T>)
    ensures
        unique_all(unique_all(s, a), b) == unique_all(s, a + b),
    decreases b.len(),
{
    if b.len() == 0 {
        assert(a + b =~= a);
    } else {
        lemma_unique_all_twice(s, a, b.drop_last());
        assert((a + b).drop_last() =~= a + b.drop_last());
    }
}

proof fn lemma_families_of_sum(a: Seq<IpAddr>, b: Seq<IpAddr>)
    ensures
        v4_of_list(a + b) == v4_of_list(a) + v4_of_list(b),
        v6_of_list(a + b) == v6_of_list(a) + v6_of_list(b),
    decreases b.len(),
{
    if b.len() == 0 {
        assert(a + b =~= a);
        assert(v4_of_list(a) + v4_of_list(b) =~= v4_of_list(a));
        assert(v6_of_list(a) + v6_of_list(b) =~= v6_of_list(a));
    } else {
        lemma_families_of_sum(a, b.drop_last());
        assert((a + b).drop_last() =~= a + b.drop_last());
        assert(v4_of_list(a + b) =~= v4_of_list(a) + v4_of_list(b));
        assert(v6_of_list(a + b) =~= v6_of_list(a) + v6_of_list(b));
    }
}

/// Where the resolver says it is. The answer about IPv6 may be missing.
pub fn located(a: &[u8], aaaa: Option<&[u8]>) -> (r: (Vec<Ipv4Addr>, Vec<Ipv6Addr>))
    ensures
        ({
            let found = located_ips(
                a@,
                match aaaa {
                    Some(m) => Some(m@),
                    None => None,
                },
            );
            &&& r.0@ == unique_all(Seq::<Ipv4Addr>::empty(), v4_of_list(found))
            &&& r.1@ == unique_all(Seq::<Ipv6Addr>::empty(), v6_of_list(found))
        }),
{
    let mut v4: Vec<Ipv4Addr> = Vec::new();
    let mut v6: Vec<Ipv6Addr> = Vec::new();
    sort_addresses(&addresses(a), &mut v4, &mut v6);
    if let Some(m) = aaaa {
        let more: Vec<IpAddr> = addresses(m);
        sort_addresses(&more, &mut v4, &mut v6);
        proof {
            let (x, y) = (answer_addresses(a@), answer_addresses(m@));
            lemma_families_of_sum(x, y);
            lemma_unique_all_twice(Seq::<Ipv4Addr>::empty(), v4_of_list(x), v4_of_list(y));
            lemma_unique_all_twice(Seq::<Ipv6Addr>::empty(), v6_of_list(x), v6_of_list(y));
        }
    }
    (v4, v6)
}

/// What to do after the resolver was asked where it is.
#[derive(Clone, Copy, Debug, PartialEq, Eq, Structural)]
pub enum AfterRefresh {
    Nothing,
    /// What was learned is kept, though it is no news.
    Keep,
    /// What was learned is kept, and the clients are built anew for it.
    Rebuild,
    /// The outside world is asked.
    Search,
}

/// The resolver was asked where it is: an answer is learned from, and none starts a search unless
/// one is under way.
pub fn refreshed(
    e: &mut Endpoints,
    recovery: &mut Recovery,
    answer: Option<(Vec<Ipv4Addr>, Vec<Ipv6Addr>)>,
    now: u64,
) -> (r: AfterRefresh)
    ensures
        match answer {
            Some((v4, v6)) => {
                let came = answer_adoption(old(e).lists(), v4@, v6@);
                &&& r == (match came {
                    Adoption::Changed => AfterRefresh::Rebuild,
                    Adoption::Same => AfterRefresh::Keep,
                    Adoption::Refused => AfterRefresh::Nothing,
                })
                &&& final(e).lists() == answered(old(e).lists(), v4@, v6@)
                &&& came == Adoption::Refused ==> *final(e) == *old(e)
                &&& came != Adoption::Refused ==> final(e).source@ == "resolver"@
                    && final(e).checked_at == now
                &&& final(e).v == old(e).v
                &&& final(e).serial == old(e).serial
                &&& final(e).updated == old(e).updated
                &&& final(e).notice == old(e).notice
                &&& final(e).last_rescue_at == old(e).last_rescue_at
                &&& *final(recovery) == (Recovery { failures: 0, ..*old(recovery) })
            },
            None => {
                &&& r == (if old(recovery).searching {
                    AfterRefresh::Nothing
                } else {
                    AfterRefresh::Search
                })
                &&& *final(e) == *old(e)
                &&& *final(recovery) == (Recovery { searching: true, ..*old(recovery) })
            },
        },
{
    match answer {
        Some((v4, v6)) => {
            recovery.success();
            match learn(e, &v4, &v6, now) {
                Adoption::Changed => AfterRefresh::Rebuild,
                Adoption::Same => AfterRefresh::Keep,
                Adoption::Refused => AfterRefresh::Nothing,
            }
        },
        None => if recovery.search() {
            AfterRefresh::Search
        } else {
            AfterRefresh::Nothing
        },
    }
}

/// Where the local resolver listens: on loopback, and on nothing else.
pub open spec fn listen_on(ipv6: bool) -> Seq<SocketAddr> {
    let v4 = SocketAddr { ip: IpAddr::V4(Ipv4Addr { a: 127, b: 0, c: 0, d: 1 }), port: DNS_PORT };
    let v6 = SocketAddr {
        ip: IpAddr::V6(Ipv6Addr { s0: 0, s1: 0, s2: 0, s3: 0, s4: 0, s5: 0, s6: 0, s7: 1 }),
        port: DNS_PORT,
    };
    if ipv6 {
        seq![v4, v6]
    } else {
        seq![v4]
    }
}

/// Where the local resolver listens.
pub fn targets(ipv6: bool) -> (r: Vec<SocketAddr>)
    ensures
        r@ == listen_on(ipv6),
{
    let mut v: Vec<SocketAddr> = Vec::new();
    v.push(SocketAddr { ip: IpAddr::V4(Ipv4Addr::new(127, 0, 0, 1)), port: DNS_PORT });
    if ipv6 {
        v.push(
            SocketAddr { ip: IpAddr::V6(Ipv6Addr::new(0, 0, 0, 0, 0, 0, 0, 1)), port: DNS_PORT },
        );
    }
    assert(v@ =~= listen_on(ipv6));
    v
}

/// What a failed attempt to listen on `addr` says.
pub open spec fn port_taken(addr: SocketAddr) -> Seq<char> {
    "cannot listen on "@ + socket_form(addr) + " — another program already owns port "@ + decimal(
        addr.port as nat,
    )
}

/// An attempt to listen on `addr` succeeded or failed. Without IPv4 the resolver cannot run; without
/// IPv6 it does.
pub fn bound(listening: &mut Vec<SocketAddr>, addr: SocketAddr, ok: bool) -> (r: Result<(), String>)
    ensures
        final(listening)@ == (if ok {
            old(listening)@.push(addr)
        } else {
            old(listening)@
        }),
        match r {
            Ok(_) => ok || addr.ip is V6,
            Err(text) => !ok && addr.ip is V4 && text@ == port_taken(addr),
        },
{
    if ok {
        listening.push(addr);
        return Ok(());
    }
    match addr.ip {
        IpAddr::V6(_) => Ok(()),
        IpAddr::V4(_) => {
            let mut out = "cannot listen on ".to_owned();
            out.append(socket_text(&addr).as_str());
            out.append(" — another program already owns port ");
            push_decimal(&mut out, addr.port as u64);
            Err(out)
        },
    }
}

proof fn lemma_plain_name_written(front: Seq<u8>, labels: Seq<Seq<u8>>, rest: Seq<u8>)
    requires
        forall|k: int| 0 <= k < labels.len() ==> 1 <= (#[trigger] labels[k]).len() <= 63,
    ensures
        plain_name_end(front + counted(labels) + seq![0u8] + rest, front.len() as int) == Some(
            front.len() + counted(labels).len() + 1int,
        ),
    decreases labels.len(),
{
    let q = front + counted(labels) + seq![0u8] + rest;
    let i = front.len() as int;
    if labels.len() == 0 {
        assert(q[i] == 0);
    } else {
        let first = labels[0];
        let others = labels.drop_first();
        let front2 = front + seq![first.len() as u8] + first;
        assert(1 <= first.len() <= 63);
        assert forall|k: int| 0 <= k < others.len() implies 1 <= (#[trigger] others[k]).len()
            <= 63 by {
            assert(others[k] == labels[k + 1]);
        }
        assert(q =~= front2 + counted(others) + seq![0u8] + rest);
        lemma_plain_name_written(front2, others, rest);
        assert(q[i] == first.len());
    }
}

/// Every query gets a SERVFAIL that has a whole header and, behind it, one question whose name is made
/// of labels of 1 to 63 bytes and the zero that ends it, with a type and a class: the header and that
/// question come back, whatever stands behind them. So does every query whose header announces any
/// other number of questions, with its header alone; one whose header is cut short gets nothing.
pub proof fn law_every_plain_query_gets_a_servfail(
    header: Seq<u8>,
    labels: Seq<Seq<u8>>,
    kind: Seq<u8>,
    rest: Seq<u8>,
)
    requires
        header.len() == 12,
        kind.len() == 4,
        forall|k: int| 0 <= k < labels.len() ==> 1 <= (#[trigger] labels[k]).len() <= 63,
    ensures
        header[4] == 0 && header[5] == 1 ==> echoed(
            header + counted(labels) + seq![0u8] + kind + rest,
        ) == Some(12 + counted(labels).len() + 1 + 4int),
        !(header[4] == 0 && header[5] == 1) ==> echoed(header + rest) == Some(12int),
        forall|n: int| 0 <= n < 12 ==> echoed(#[trigger] header.take(n)) is None,
{
    let q = header + counted(labels) + seq![0u8] + kind + rest;
    assert(q =~= header + counted(labels) + seq![0u8] + (kind + rest));
    lemma_plain_name_written(header, labels, kind + rest);
}

/// A question that is cut short, or whose name holds a label of more than 63 bytes or a pointer, cannot
/// be answered.
pub proof fn law_no_servfail_for_a_broken_question(
    header: Seq<u8>,
    labels: Seq<Seq<u8>>,
    broken: Seq<u8>,
)
    requires
        header.len() == 12,
        header[4] == 0 && header[5] == 1,
        forall|k: int| 0 <= k < labels.len() ==> 1 <= (#[trigger] labels[k]).len() <= 63,
        broken.len() == 0 || broken[0] >= 0x40 || (broken[0] > 0 && broken.len() <= broken[0] + 1)
            || (broken[0] == 0 && broken.len() < 5),
    ensures
        echoed(header + counted(labels) + broken) is None,
{
    lemma_broken_name(header, labels, broken);
}

proof fn lemma_broken_name(front: Seq<u8>, labels: Seq<Seq<u8>>, broken: Seq<u8>)
    requires
        forall|k: int| 0 <= k < labels.len() ==> 1 <= (#[trigger] labels[k]).len() <= 63,
        broken.len() == 0 || broken[0] >= 0x40 || (broken[0] > 0 && broken.len() <= broken[0] + 1)
            || (broken[0] == 0 && broken.len() < 5),
    ensures
        ({
            let q = front + counted(labels) + broken;
            plain_name_end(q, front.len() as int) matches Some(e) ==> e + 4 > q.len()
        }),
    decreases labels.len(),
{
    let q = front + counted(labels) + broken;
    let i = front.len() as int;
    if labels.len() == 0 {
        assert(q =~= front + broken);
        if broken.len() > 0 {
            assert(q[i] == broken[0]);
            reveal_with_fuel(plain_name_end, 2);
        }
    } else {
        let first = labels[0];
        let others = labels.drop_first();
        let front2 = front + seq![first.len() as u8] + first;
        assert(1 <= first.len() <= 63);
        assert forall|k: int| 0 <= k < others.len() implies 1 <= (#[trigger] others[k]).len()
            <= 63 by {
            assert(others[k] == labels[k + 1]);
        }
        assert(q =~= front2 + counted(others) + broken);
        lemma_broken_name(front2, others, broken);
        assert(q[i] == first.len());
    }
}

/// Every query that is sent from here would get a SERVFAIL, and the whole of it would come back.
pub proof fn law_own_queries_get_a_servfail(name: Seq<char>, qtype: u16, id: u16)
    requires
        label_fault(labels_of(name)) is None,
    ensures
        echoed(query(name, qtype, id)) == Some(query(name, qtype, id).len() as int),
{
    law_a_query_is_one_question(name, qtype, id);
    let labels = encoded(labels_of(name));
    let header = seq![(id / 256) as u8, (id % 256) as u8, 1, 0, 0, 1, 0, 0, 0, 0, 0, 0];
    let kind = two_bytes(qtype) + two_bytes(1);
    let none = Seq::<u8>::empty();
    assert forall|k: int| 0 <= k < labels.len() implies 1 <= (#[trigger] labels[k]).len() <= 63 by {
        assert(1 <= encode_utf8(labels_of(name)[k]).len() <= 63);
    }
    law_every_plain_query_gets_a_servfail(header, labels, kind, none);
    assert(query(name, qtype, id) =~= header + counted(labels) + seq![0u8] + kind + none);
}

/// A SERVFAIL byte by byte: the identifier, the opcode and the wish for recursion of the query, the bits
/// of a response that is neither authoritative nor cut, recursion available, code 2, and the counts of
/// a message that holds at most the question.
pub proof fn law_servfail_bytes(q: Seq<u8>, end: int, k: int)
    requires
        12 <= k < end <= q.len(),
    ensures
        servfail_for(q, end).len() == end,
        servfail_for(q, end)[0] == q[0],
        servfail_for(q, end)[1] == q[1],
        servfail_for(q, end)[2] == 0x80 | (q[2] & 0x79),
        servfail_for(q, end)[3] == 0x82,
        servfail_for(q, end)[4] == 0,
        servfail_for(q, end)[5] == (if q[4] == 0 && q[5] == 1 {
            1u8
        } else {
            0u8
        }),
        servfail_for(q, end).subrange(6, 12) == seq![0u8, 0, 0, 0, 0, 0],
        servfail_for(q, end)[k] == q[k],
{
    let b = q[2];
    assert((b & 0b0111_1001) | 0b1000_0000 == 0x80 | (b & 0x79)) by (bit_vector);
    assert(servfail_for(q, end).subrange(6, 12) =~= seq![0u8, 0, 0, 0, 0, 0]);
}

/// The routes stand in a ring: behind each comes the next one, and behind the last the first.
pub proof fn law_routes_stand_in_a_ring(start: int, k: int, n: int)
    requires
        0 <= start < n,
        0 <= k < n,
    ensures
        behind(start, 0, n) == start,
        behind(start, k + 1, n) == (if behind(start, k, n) == n - 1 {
            0
        } else {
            behind(start, k, n) + 1
        }),
        0 <= behind(start, k, n) < n,
{
    lemma_once_round(start, n);
    lemma_once_round(start + k, n);
    if start + k + 1 < 2 * n {
        lemma_once_round(start + k + 1, n);
    }
    assert(start + (k + 1) == start + k + 1);
}

/// The limits that the resolver keeps: port 53; datagrams of at most 4096 bytes; a search after every
/// five failures in a row; and at most three addresses for one query, fewer where there are fewer.
pub proof fn law_limits_of_the_resolver(n: int)
    requires
        n > 0,
    ensures
        DNS_PORT == 53,
        MAX_UDP == 4096,
        FAILURES_BEFORE_RESCUE == 5,
        1 <= tries(n) <= 3,
        tries(n) <= n,
        n <= 3 ==> tries(n) == n,
        n > 3 ==> tries(n) == 3,
{
}

/// The addresses of a list are told apart by their family, each family in the order of the list.
pub proof fn law_families_are_told_apart(s: Seq<IpAddr>)
    ensures
        v4_of_list(s) == s.filter(|ip: IpAddr| ip is V4).map_values(|ip: IpAddr| ip->V4_0),
        v6_of_list(s) == s.filter(|ip: IpAddr| ip is V6).map_values(|ip: IpAddr| ip->V6_0),
        v4_of_list(s).len() + v6_of_list(s).len() == s.len(),
    decreases s.len(),
{
    reveal(Seq::filter);
    let four = |ip: IpAddr| ip is V4;
    let six = |ip: IpAddr| ip is V6;
    let v4 = |ip: IpAddr| ip->V4_0;
    let v6 = |ip: IpAddr| ip->V6_0;
    if s.len() > 0 {
        let rest = s.drop_last();
        let last = s.last();
        law_families_are_told_apart(rest);
        assert(rest.filter(four).push(last).map_values(v4) =~= rest.filter(four).map_values(
            v4,
        ).push(v4(last)));
        assert(rest.filter(six).push(last).map_values(v6) =~= rest.filter(six).map_values(v6).push(
            v6(last),
        ));
    } else {
        assert(v4_of_list(s) =~= s.filter(four).map_values(v4));
        assert(v6_of_list(s) =~= s.filter(six).map_values(v6));
    }
}

/// Where the resolver is follows from both answers, the one about IPv4 first; a missing answer about
/// IPv6 takes nothing away.
pub proof fn law_both_answers_count(a: Seq<u8>, aaaa: Seq<u8>)
    ensures
        located_ips(a, None) == answer_addresses(a),
        located_ips(a, Some(aaaa)).len() == answer_addresses(a).len() + answer_addresses(
            aaaa,
        ).len(),
        answer_addresses(a).is_prefix_of(located_ips(a, Some(aaaa))),
        answer_addresses(aaaa).is_suffix_of(located_ips(a, Some(aaaa))),
{
    let all = located_ips(a, Some(aaaa));
    let n = answer_addresses(a).len() as int;
    assert(all.subrange(0, n) =~= answer_addresses(a));
    assert(all.subrange(n, all.len() as int) =~= answer_addresses(aaaa));
}

/// The resolver listens on the loopback of each family that is asked for, on port 53, and on nothing
/// that can be reached from outside.
pub proof fn law_only_loopback_listens(ipv6: bool)
    ensures
        listen_on(ipv6).len() == (if ipv6 {
            2nat
        } else {
            1
        }),
        listen_on(ipv6)[0].ip == IpAddr::V4(Ipv4Addr { a: 127, b: 0, c: 0, d: 1 }),
        ipv6 ==> listen_on(ipv6)[1].ip == IpAddr::V6(
            Ipv6Addr { s0: 0, s1: 0, s2: 0, s3: 0, s4: 0, s5: 0, s6: 0, s7: 1 },
        ),
        forall|i: int| 0 <= i < listen_on(ipv6).len() ==> (#[trigger] listen_on(ipv6)[i]).port == 53,
{
}

/// What is said where the resolver's reply is no answer, and where another program has the port.
pub proof fn law_troubles_in_words(code: u16, n: usize, status: Seq<char>, addr: SocketAddr)
    ensures
        ReplyError::Http(code).says(status) == "resolver answered HTTP "@ + status,
        ReplyError::Short(n).says(status) == "resolver answered "@ + decimal(n as nat)
            + " bytes, too short for DNS"@,
        port_taken(addr) == "cannot listen on "@ + socket_form(addr)
            + " — another program already owns port "@ + decimal(addr.port as nat),
{
}

} // verus!
