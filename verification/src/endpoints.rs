//! Where the resolver is now, and how that stays true after a node moves.
//!
//! Only addresses ever come from the network. The name that the certificate is checked against is
//! built in, and so are the first addresses, which nothing that arrives can take off the list.

use vstd::prelude::*;

use crate::addr::{copied, member, Address, IpAddr, Ipv4Addr, Ipv6Addr, SocketAddr};
use crate::config::{resolver_ips, resolver_ipv6, with_port};
use crate::text::{chars_of, clip, text_of};
#[allow(unused_imports)]
use crate::addr::{public_v4, public_v6};
#[allow(unused_imports)]
use crate::config::{built_in_v4, built_in_v6, sockets};
#[allow(unused_imports)]
use crate::text::{clipped, lemma_clipped_fits};
#[allow(unused_imports)]
use vstd::utf8::encode_utf8;

verus! {

/// Every transport runs on this port.
pub const DOH_PORT: u16 = 443;

/// How many addresses of one family a list may name.
pub const MAX_ADDRS: usize = 8;

/// How many addresses that are no longer in use are remembered.
pub const MAX_RETIRED: usize = 32;

/// How long the outside world is left alone after it was asked.
pub const RESCUE_COOLDOWN_SECS: u64 = 1800;

/// The form of the published list that this build reads.
pub const FORMAT: u32 = 1;

/// What is known about where the resolver is.
#[derive(Debug)]
pub struct Endpoints {
    /// The form of the document.
    pub v: u32,
    /// Grows with every publication.
    pub serial: u64,
    /// For a person to read.
    pub updated: String,
    pub v4: Vec<Ipv4Addr>,
    pub v6: Vec<Ipv6Addr>,
    /// Addresses that were the resolver's and are not any more.
    pub retired: Vec<IpAddr>,
    /// For a person to read.
    pub notice: String,
    /// Where the lists came from.
    pub source: String,
    /// When they came, in seconds.
    pub checked_at: u64,
    /// When the outside world was last asked, in seconds.
    pub last_rescue_at: u64,
}

/// The three lists of addresses.
#[verifier::ext_equal]
pub struct Lists {
    pub v4: Seq<Ipv4Addr>,
    pub v6: Seq<Ipv6Addr>,
    pub retired: Seq<IpAddr>,
}

impl Endpoints {
    /// The three lists of addresses.
    pub open spec fn lists(&self) -> Lists {
        Lists { v4: self.v4@, v6: self.v6@, retired: self.retired@ }
    }
}

impl Default for Endpoints {
    fn default() -> (r: Endpoints)
        ensures
            r.v == FORMAT,
            r.serial == 0,
            r.updated@ == Seq::<char>::empty(),
            r.v4@ == Seq::<Ipv4Addr>::empty(),
            r.v6@ == Seq::<Ipv6Addr>::empty(),
            r.retired@ == Seq::<IpAddr>::empty(),
            r.notice@ == Seq::<char>::empty(),
            r.source@ == Seq::<char>::empty(),
            r.checked_at == 0,
            r.last_rescue_at == 0,
    {
        Endpoints {
            v: FORMAT,
            serial: 0,
            updated: String::new(),
            v4: Vec::new(),
            v6: Vec::new(),
            retired: Vec::new(),
            notice: String::new(),
            source: String::new(),
            checked_at: 0,
            last_rescue_at: 0,
        }
    }
}

/// At most the first `n`.
pub open spec fn capped<T>(s: Seq<T>, n: nat) -> Seq<T> {
    if s.len() <= n {
        s
    } else {
        s.take(n as int)
    }
}

/// Those addresses of a list that could be a public resolver's, in their order.
pub open spec fn publics<T: Address>(s: Seq<T>) -> Seq<T>
    decreases s.len(),
{
    if s.len() == 0 {
        Seq::empty()
    } else if s.last().public() {
        publics(s.drop_last()).push(s.last())
    } else {
        publics(s.drop_last())
    }
}

/// At most `max` of the usable addresses of a list.
pub fn usable_only<T: Address>(list: &Vec<T>, max: usize) -> (r: Vec<T>)
    ensures
        r@ == capped(publics(list@), max as nat),
{
    let mut out: Vec<T> = Vec::new();
    let mut i: usize = 0;
    while i < list.len()
        invariant
            i <= list@.len(),
            out@ == capped(publics(list@.take(i as int)), max as nat),
        decreases list@.len() - i,
    {
        assert(list@.take(i + 1).drop_last() =~= list@.take(i as int));
        if out.len() < max && list[i].usable() {
            out.push(list[i].again());
        }
        i += 1;
        proof {
            let before = publics(list@.take(i - 1));
            if before.len() >= max {
                assert(before.push(list@[i - 1]).take(max as int) =~= before.take(max as int));
            }
        }
    }
    assert(list@.take(i as int) =~= list@);
    out
}

/// The list with `x` behind it, unless it is there already.
pub open spec fn unique_push<T>(s: Seq<T>, x: T) -> Seq<T> {
    if s.contains(x) {
        s
    } else {
        s.push(x)
    }
}

/// The list with each of `xs` behind it that is not there already.
pub open spec fn unique_all<T>(s: Seq<T>, xs: Seq<T>) -> Seq<T>
    decreases xs.len(),
{
    if xs.len() == 0 {
        s
    } else {
        unique_push(unique_all(s, xs.drop_last()), xs.last())
    }
}

/// Puts an address behind a list, unless it is there already.
pub fn push_unique<T: Address>(list: &mut Vec<T>, item: T)
    ensures
        final(list)@ == unique_push(old(list)@, item),
{
    if !member(list, &item) {
        list.push(item);
    }
}

/// Puts each of some addresses behind a list, unless it is there already.
pub fn push_all_unique<T: Address>(list: &mut Vec<T>, items: &Vec<T>)
    ensures
        final(list)@ == unique_all(old(list)@, items@),
{
    let ghost start = list@;
    let mut i: usize = 0;
    assert(items@.take(0) =~= Seq::<T>::empty());
    while i < items.len()
        invariant
            i <= items@.len(),
            list@ == unique_all(start, items@.take(i as int)),
        decreases items@.len() - i,
    {
        push_unique(list, items[i].again());
        i += 1;
        assert(items@.take(i as int).drop_last() =~= items@.take(i - 1));
    }
    assert(items@.take(i as int) =~= items@);
}

/// Each address of `a` is one of `b`.
pub open spec fn all_among<T>(a: Seq<T>, b: Seq<T>) -> bool {
    forall|i: int| 0 <= i < a.len() ==> b.contains(#[trigger] a[i])
}

/// Equally many addresses, each of `a` one of `b` and each of `b` one of `a`.
pub open spec fn same_addresses<T>(a: Seq<T>, b: Seq<T>) -> bool {
    a.len() == b.len() && all_among(a, b) && all_among(b, a)
}

/// Whether each address of a list is in another.
fn are_among<T: Address>(a: &Vec<T>, b: &Vec<T>) -> (r: bool)
    ensures
        r == all_among(a@, b@),
{
    let mut i: usize = 0;
    while i < a.len()
        invariant
            i <= a@.len(),
            forall|k: int| 0 <= k < i ==> b@.contains(#[trigger] a@[k]),
        decreases a@.len() - i,
    {
        if !member(b, &a[i]) {
            assert(!b@.contains(a@[i as int]));
            return false;
        }
        i += 1;
    }
    true
}

/// Whether two lists name the same addresses, in any order.
pub fn same_set<T: Address>(a: &Vec<T>, b: &Vec<T>) -> (r: bool)
    ensures
        r == same_addresses(a@, b@),
{
    a.len() == b.len() && are_among(a, b) && are_among(b, a)
}

/// The addresses as addresses of either family.
pub open spec fn ips<T: Address>(s: Seq<T>) -> Seq<IpAddr> {
    Seq::new(s.len(), |i: int| s[i].ip())
}

/// Those addresses of a list that are not in `there`.
pub open spec fn missing<T>(s: Seq<T>, there: Seq<T>) -> Seq<T>
    decreases s.len(),
{
    if s.len() == 0 {
        Seq::empty()
    } else if there.contains(s.last()) {
        missing(s.drop_last(), there)
    } else {
        missing(s.drop_last(), there).push(s.last())
    }
}

/// Adds to `out` those addresses of a list that are not in `there`.
fn push_missing<T: Address>(out: &mut Vec<IpAddr>, list: &Vec<T>, there: &Vec<T>)
    ensures
        final(out)@ == old(out)@ + ips(missing(list@, there@)),
{
    let ghost start = out@;
    let mut i: usize = 0;
    assert(start + ips(missing(list@.take(0), there@)) =~= start);
    while i < list.len()
        invariant
            i <= list@.len(),
            out@ == start + ips(missing(list@.take(i as int), there@)),
        decreases list@.len() - i,
    {
        proof {
            assert(list@.take(i + 1).drop_last() =~= list@.take(i as int));
            let m = missing(list@.take(i as int), there@);
            assert(ips(m.push(list@[i as int])) =~= ips(m).push(list@[i as int].ip()));
        }
        if !member(there, &list[i]) {
            out.push(list[i].to_ip());
        }
        i += 1;
    }
    assert(list@.take(i as int) =~= list@);
}

/// The retired addresses with `gone` added, and of these the newest.
pub open spec fn remembered(retired: Seq<IpAddr>, gone: Seq<IpAddr>) -> Seq<IpAddr> {
    let all = unique_all(retired, gone);
    if all.len() > MAX_RETIRED {
        all.skip(all.len() - MAX_RETIRED)
    } else {
        all
    }
}

/// Remembers addresses that are gone. The oldest fall off a list that has grown too long.
pub fn remember_retired(retired: &mut Vec<IpAddr>, gone: &Vec<IpAddr>)
    ensures
        final(retired)@ == remembered(old(retired)@, gone@),
{
    push_all_unique(retired, gone);
    let ghost all = retired@;
    if retired.len() > MAX_RETIRED {
        let extra: usize = retired.len() - MAX_RETIRED;
        let mut newest: Vec<IpAddr> = Vec::new();
        let mut i: usize = extra;
        while i < retired.len()
            invariant
                extra <= i <= retired@.len(),
                newest@ == retired@.subrange(extra as int, i as int),
            decreases retired@.len() - i,
        {
            newest.push(retired[i]);
            i += 1;
            assert(retired@.subrange(extra as int, i as int) =~= retired@.subrange(
                extra as int,
                i - 1,
            ).push(retired@[i - 1]));
        }
        assert(newest@ =~= all.skip(extra as int));
        *retired = newest;
    }
}

/// The text without a byte-order mark in front.
pub open spec fn without_bom(s: Seq<char>) -> Seq<char> {
    if s.len() > 0 && s[0] == '\u{feff}' {
        s.skip(1)
    } else {
        s
    }
}

/// Takes the byte-order mark off a text that starts with one.
pub fn strip_bom(text: &str) -> (r: String)
    ensures
        r@ == without_bom(text@),
{
    let c: Vec<char> = chars_of(text);
    let from: usize = if c.len() > 0 && c[0] == '\u{feff}' {
        1
    } else {
        0
    };
    assert(text@.subrange(0, text@.len() as int) =~= text@);
    assert(text@.len() > 0 ==> text@.subrange(1, text@.len() as int) =~= text@.skip(1));
    text_of(&c, from, c.len())
}

impl Endpoints {
    /// Whether the lists hold usable addresses only and no more than they may, and the texts are
    /// no longer than they may be.
    pub open spec fn sane(&self) -> bool {
        &&& sane_lists(self.lists())
        &&& encode_utf8(self.notice@).len() <= 500
        &&& encode_utf8(self.updated@).len() <= 100
    }
}

/// Whether every address of a list could be a public resolver's.
pub open spec fn all_public<T: Address>(s: Seq<T>) -> bool {
    forall|i: int| 0 <= i < s.len() ==> (#[trigger] s[i]).public()
}

/// Whether the lists hold usable addresses only, and no more than they may.
pub open spec fn sane_lists(l: Lists) -> bool {
    &&& all_public(l.v4)
    &&& all_public(l.v6)
    &&& all_public(l.retired)
    &&& l.v4.len() <= MAX_ADDRS
    &&& l.v6.len() <= MAX_ADDRS
    &&& l.retired.len() <= MAX_RETIRED
}

proof fn lemma_publics<T: Address>(s: Seq<T>)
    ensures
        all_public(publics(s)),
        all_public(s) ==> publics(s) == s,
    decreases s.len(),
{
    if s.len() > 0 {
        lemma_publics(s.drop_last());
        if all_public(s) {
            assert(all_public(s.drop_last())) by {
                assert forall|i: int| 0 <= i < s.len() - 1 implies (
                #[trigger] s.drop_last()[i]).public() by {
                    assert(s[i].public());
                }
            }
            assert(s[s.len() - 1].public());
            assert(s.drop_last().push(s.last()) =~= s);
        }
    } else {
        assert(s =~= Seq::<T>::empty());
    }
}

/// The usable addresses of a list, as many as it may have.
pub open spec fn cleaned<T: Address>(s: Seq<T>, max: nat) -> Seq<T> {
    capped(publics(s), max)
}

/// Cleaning leaves a list that is within its bounds and stays as it is when cleaned again.
pub proof fn lemma_cleaned<T: Address>(s: Seq<T>, max: nat)
    ensures
        all_public(cleaned(s, max)),
        cleaned(s, max).len() <= max,
        all_public(s) && s.len() <= max ==> cleaned(s, max) == s,
{
    lemma_publics(s);
    let p = publics(s);
    let c = cleaned(s, max);
    assert forall|i: int| 0 <= i < c.len() implies (#[trigger] c[i]).public() by {
        assert(p[i].public());
    }
}

/// Whatever arrives from outside, with everything taken off that cannot be right: addresses that
/// cannot be a resolver's, and what goes beyond the bounds.
pub fn sanitised(e: Endpoints) -> (r: Endpoints)
    ensures
        r.sane(),
        r.v4@ == cleaned(e.v4@, MAX_ADDRS as nat),
        r.v6@ == cleaned(e.v6@, MAX_ADDRS as nat),
        r.retired@ == cleaned(e.retired@, MAX_RETIRED as nat),
        r.notice@ == clipped(e.notice@, 500),
        r.updated@ == clipped(e.updated@, 100),
        r.source@ == clipped(e.source@, 40),
        r.v == e.v,
        r.serial == e.serial,
        r.checked_at == e.checked_at,
        r.last_rescue_at == e.last_rescue_at,
{
    proof {
        lemma_cleaned(e.v4@, MAX_ADDRS as nat);
        lemma_cleaned(e.v6@, MAX_ADDRS as nat);
        lemma_cleaned(e.retired@, MAX_RETIRED as nat);
        lemma_clipped_fits(e.notice@, 500);
        lemma_clipped_fits(e.updated@, 100);
    }
    let mut out = e;
    out.v4 = usable_only(&out.v4, MAX_ADDRS);
    out.v6 = usable_only(&out.v6, MAX_ADDRS);
    out.retired = usable_only(&out.retired, MAX_RETIRED);
    clip(&mut out.notice, 500);
    clip(&mut out.updated, 100);
    clip(&mut out.source, 40);
    out
}

/// A document that was read from a file: cleaned, or refused where its form is newer than this
/// build knows.
pub fn accepted(e: Endpoints) -> (r: Option<Endpoints>)
    ensures
        r is Some <==> e.v <= FORMAT,
        r matches Some(a) ==> {
            &&& a.sane()
            &&& a.v4@ == cleaned(e.v4@, MAX_ADDRS as nat)
            &&& a.v6@ == cleaned(e.v6@, MAX_ADDRS as nat)
            &&& a.retired@ == cleaned(e.retired@, MAX_RETIRED as nat)
            &&& a.notice@ == clipped(e.notice@, 500)
            &&& a.updated@ == clipped(e.updated@, 100)
            &&& a.source@ == clipped(e.source@, 40)
            &&& a.v == e.v
            &&& a.serial == e.serial
            &&& a.checked_at == e.checked_at
            &&& a.last_rescue_at == e.last_rescue_at
        },
{
    if e.v <= FORMAT {
        Some(sanitised(e))
    } else {
        None
    }
}

/// Those addresses of a list that are (or are not) among `marks`.
pub open spec fn marked<T: Address>(s: Seq<T>, marks: Seq<IpAddr>, yes: bool) -> Seq<T>
    decreases s.len(),
{
    if s.len() == 0 {
        Seq::empty()
    } else if marks.contains(s.last().ip()) == yes {
        marked(s.drop_last(), marks, yes).push(s.last())
    } else {
        marked(s.drop_last(), marks, yes)
    }
}

fn only_marked<T: Address>(list: &Vec<T>, marks: &Vec<IpAddr>, yes: bool) -> (r: Vec<T>)
    ensures
        r@ == marked(list@, marks@, yes),
{
    let mut out: Vec<T> = Vec::new();
    let mut i: usize = 0;
    while i < list.len()
        invariant
            i <= list@.len(),
            out@ == marked(list@.take(i as int), marks@, yes),
        decreases list@.len() - i,
    {
        assert(list@.take(i + 1).drop_last() =~= list@.take(i as int));
        if member(marks, &list[i].to_ip()) == yes {
            out.push(list[i].again());
        }
        i += 1;
    }
    assert(list@.take(i as int) =~= list@);
    out
}

/// The order in which addresses of one family are tried: what was learned, then what is built in,
/// and last of all what is built in and retired.
pub open spec fn order<T: Address>(learned: Seq<T>, built_in: Seq<T>, retired: Seq<IpAddr>) -> Seq<
    T,
> {
    unique_all(
        unique_all(unique_all(Seq::empty(), learned), marked(built_in, retired, false)),
        marked(built_in, retired, true),
    )
}

fn in_order<T: Address>(learned: &Vec<T>, built_in: &Vec<T>, retired: &Vec<IpAddr>) -> (r: Vec<T>)
    ensures
        r@ == order(learned@, built_in@, retired@),
{
    let mut out: Vec<T> = Vec::new();
    push_all_unique(&mut out, learned);
    push_all_unique(&mut out, &only_marked(built_in, retired, false));
    push_all_unique(&mut out, &only_marked(built_in, retired, true));
    out
}

/// The places to connect to, in the order in which to try them.
pub open spec fn candidate_list(l: Lists) -> Seq<SocketAddr> {
    sockets(
        order(l.v4, built_in_v4(), l.retired),
        order(l.v6, built_in_v6(), l.retired),
        DOH_PORT,
    )
}

/// The places to connect to, in the order in which to try them: IPv4 before IPv6, and in each
/// family what was learned before what is built in.
pub fn candidates(e: &Endpoints) -> (r: Vec<SocketAddr>)
    ensures
        r@ == candidate_list(e.lists()),
{
    let v4: Vec<Ipv4Addr> = in_order(&e.v4, &resolver_ips(), &e.retired);
    let v6: Vec<Ipv6Addr> = in_order(&e.v6, &resolver_ipv6(), &e.retired);
    with_port(&v4, &v6, DOH_PORT)
}

/// What a machine uses: what was learned, or what is built in where nothing was.
pub open spec fn in_use<T>(learned: Seq<T>, built_in: Seq<T>) -> Seq<T> {
    if learned.len() == 0 {
        built_in
    } else {
        learned
    }
}

/// The IPv4 addresses in use. What was learned replaces what is built in.
pub fn effective_v4(e: &Endpoints) -> (r: Vec<Ipv4Addr>)
    ensures
        r@ == in_use(e.v4@, built_in_v4()),
{
    if e.v4.len() == 0 {
        resolver_ips()
    } else {
        copied(&e.v4)
    }
}

/// The IPv6 addresses in use. What was learned replaces what is built in.
pub fn effective_v6(e: &Endpoints) -> (r: Vec<Ipv6Addr>)
    ensures
        r@ == in_use(e.v6@, built_in_v6()),
{
    if e.v6.len() == 0 {
        resolver_ipv6()
    } else {
        copied(&e.v6)
    }
}

/// Every address that has ever been the resolver's, as far as is known.
pub open spec fn known(l: Lists) -> Seq<IpAddr> {
    unique_all(
        unique_all(
            unique_all(
                unique_all(unique_all(Seq::empty(), ips(built_in_v4())), ips(built_in_v6())),
                ips(l.v4),
            ),
            ips(l.v6),
        ),
        l.retired,
    )
}

fn to_ips<T: Address>(list: &Vec<T>) -> (r: Vec<IpAddr>)
    ensures
        r@ == ips(list@),
{
    let mut out: Vec<IpAddr> = Vec::new();
    let mut i: usize = 0;
    while i < list.len()
        invariant
            i <= list@.len(),
            out@ == ips(list@).take(i as int),
        decreases list@.len() - i,
    {
        out.push(list[i].to_ip());
        i += 1;
        assert(ips(list@).take(i as int) =~= ips(list@).take(i - 1).push(ips(list@)[i - 1]));
    }
    assert(ips(list@).take(i as int) =~= ips(list@));
    out
}

/// Every address that has ever been the resolver's, as far as is known. An address found on an
/// adapter is the resolver's if it is one of these, and the user's own otherwise.
pub fn known_addresses(e: &Endpoints) -> (r: Vec<IpAddr>)
    ensures
        r@ == known(e.lists()),
{
    let mut all: Vec<IpAddr> = Vec::new();
    push_all_unique(&mut all, &to_ips(&resolver_ips()));
    push_all_unique(&mut all, &to_ips(&resolver_ipv6()));
    push_all_unique(&mut all, &to_ips(&e.v4));
    push_all_unique(&mut all, &to_ips(&e.v6));
    push_all_unique(&mut all, &e.retired);
    all
}

/// What came of a fresh list of addresses.
#[derive(Clone, Copy, Debug, PartialEq, Eq, Structural)]
pub enum Adoption {
    /// It was not taken, and nothing changed.
    Refused,
    /// It was taken, and names the addresses that were in use already.
    Same,
    /// It was taken, and the next connection tries other addresses.
    Changed,
}

impl Adoption {
    /// Whether the next connection tries other addresses.
    pub fn changed(&self) -> (r: bool)
        ensures
            r == (*self == Adoption::Changed),
    {
        *self == Adoption::Changed
    }
}

/// The lists after `v4` and `v6` took the place of the old ones: what left them is retired, and so
/// is what `gone` names besides.
pub open spec fn renewed(
    l: Lists,
    v4: Seq<Ipv4Addr>,
    v6: Seq<Ipv6Addr>,
    gone: Seq<IpAddr>,
) -> Lists {
    Lists { v4, v6, retired: remembered(l.retired, all_gone(l, v4, v6, gone)) }
}

/// What is retired when `v4` and `v6` take the place of the old lists.
pub open spec fn all_gone(
    l: Lists,
    v4: Seq<Ipv4Addr>,
    v6: Seq<Ipv6Addr>,
    gone: Seq<IpAddr>,
) -> Seq<IpAddr> {
    ips(missing(l.v4, v4)) + ips(missing(l.v6, v6)) + gone
}

/// The IPv6 list after an answer: one without IPv6 addresses leaves the old list in place.
pub open spec fn v6_after(old_v6: Seq<Ipv6Addr>, fresh: Seq<Ipv6Addr>) -> Seq<Ipv6Addr> {
    if fresh.len() == 0 {
        old_v6
    } else {
        fresh
    }
}

/// The lists after an answer that names `v4` and `v6`. One that names no usable IPv4 address
/// changes nothing.
pub open spec fn answered(l: Lists, v4: Seq<Ipv4Addr>, v6: Seq<Ipv6Addr>) -> Lists {
    let fresh_v4 = cleaned(v4, MAX_ADDRS as nat);
    let fresh_v6 = cleaned(v6, MAX_ADDRS as nat);
    if fresh_v4.len() == 0 {
        l
    } else {
        renewed(l, fresh_v4, v6_after(l.v6, fresh_v6), Seq::empty())
    }
}

/// What comes of an answer that names `v4` and `v6`.
pub open spec fn answer_adoption(l: Lists, v4: Seq<Ipv4Addr>, v6: Seq<Ipv6Addr>) -> Adoption {
    let fresh_v4 = cleaned(v4, MAX_ADDRS as nat);
    let fresh_v6 = cleaned(v6, MAX_ADDRS as nat);
    if fresh_v4.len() == 0 {
        Adoption::Refused
    } else if !same_addresses(fresh_v4, in_use(l.v4, built_in_v4())) || (fresh_v6.len() > 0
        && !same_addresses(fresh_v6, in_use(l.v6, built_in_v6()))) {
        Adoption::Changed
    } else {
        Adoption::Same
    }
}

proof fn lemma_none_missing<T>(s: Seq<T>, there: Seq<T>)
    requires
        forall|i: int| 0 <= i < s.len() ==> there.contains(#[trigger] s[i]),
    ensures
        missing(s, there) == Seq::<T>::empty(),
    decreases s.len(),
{
    if s.len() > 0 {
        assert(there.contains(s[s.len() - 1]));
        assert forall|i: int| 0 <= i < s.len() - 1 implies there.contains(
            #[trigger] s.drop_last()[i],
        ) by {
            assert(there.contains(s[i]));
        }
        lemma_none_missing(s.drop_last(), there);
    }
}

/// Takes an answer's addresses, whoever gave it. What leaves the lists is retired, not forgotten.
pub fn adopt_addresses(
    e: &mut Endpoints,
    v4: &Vec<Ipv4Addr>,
    v6: &Vec<Ipv6Addr>,
    source: &str,
    now: u64,
) -> (r: Adoption)
    ensures
        r == answer_adoption(old(e).lists(), v4@, v6@),
        final(e).lists() == answered(old(e).lists(), v4@, v6@),
        r == Adoption::Refused ==> *final(e) == *old(e),
        r != Adoption::Refused ==> final(e).source@ == source@ && final(e).checked_at == now,
        final(e).v == old(e).v,
        final(e).serial == old(e).serial,
        final(e).updated == old(e).updated,
        final(e).notice == old(e).notice,
        final(e).last_rescue_at == old(e).last_rescue_at,
{
    let fresh_v4: Vec<Ipv4Addr> = usable_only(v4, MAX_ADDRS);
    let fresh_v6: Vec<Ipv6Addr> = usable_only(v6, MAX_ADDRS);
    if fresh_v4.len() == 0 {
        return Adoption::Refused;
    }
    let changed: bool = !same_set(&fresh_v4, &effective_v4(e)) || (fresh_v6.len() > 0 && !same_set(
        &fresh_v6,
        &effective_v6(e),
    ));
    let mut gone: Vec<IpAddr> = Vec::new();
    push_missing(&mut gone, &e.v4, &fresh_v4);
    if fresh_v6.len() > 0 {
        push_missing(&mut gone, &e.v6, &fresh_v6);
    }
    proof {
        let l = old(e).lists();
        if fresh_v6@.len() == 0 {
            lemma_none_missing(l.v6, l.v6);
            assert(ips(missing(l.v6, l.v6)) =~= Seq::<IpAddr>::empty());
        }
        assert(gone@ =~= all_gone(l, fresh_v4@, v6_after(l.v6, fresh_v6@), Seq::empty()));
    }
    e.v4 = fresh_v4;
    if fresh_v6.len() > 0 {
        e.v6 = fresh_v6;
    }
    remember_retired(&mut e.retired, &gone);
    e.source = source.to_owned();
    e.checked_at = now;
    if changed {
        Adoption::Changed
    } else {
        Adoption::Same
    }
}

/// Takes what the resolver itself just answered.
pub fn learn(e: &mut Endpoints, v4: &Vec<Ipv4Addr>, v6: &Vec<Ipv6Addr>, now: u64) -> (r: Adoption)
    ensures
        r == answer_adoption(old(e).lists(), v4@, v6@),
        final(e).lists() == answered(old(e).lists(), v4@, v6@),
        r == Adoption::Refused ==> *final(e) == *old(e),
        r != Adoption::Refused ==> final(e).source@ == "resolver"@ && final(e).checked_at == now,
        final(e).v == old(e).v,
        final(e).serial == old(e).serial,
        final(e).updated == old(e).updated,
        final(e).notice == old(e).notice,
        final(e).last_rescue_at == old(e).last_rescue_at,
{
    adopt_addresses(e, v4, v6, "resolver", now)
}

/// Whether a published list is taken: it names a usable IPv4 address, and its serial number does
/// not go back behind what was seen already.
pub open spec fn takes(serial: u64, m_serial: u64, m_v4: Seq<Ipv4Addr>) -> bool {
    cleaned(m_v4, MAX_ADDRS as nat).len() > 0 && m_serial >= serial
}

/// The lists after a published list was taken.
pub open spec fn published(l: Lists, m: Lists) -> Lists {
    renewed(
        l,
        cleaned(m.v4, MAX_ADDRS as nat),
        cleaned(m.v6, MAX_ADDRS as nat),
        cleaned(m.retired, MAX_RETIRED as nat),
    )
}

/// Whether a published list names other addresses than those in use.
pub open spec fn publishes_news(l: Lists, m: Lists) -> bool {
    !same_addresses(cleaned(m.v4, MAX_ADDRS as nat), in_use(l.v4, built_in_v4()))
        || !same_addresses(cleaned(m.v6, MAX_ADDRS as nat), in_use(l.v6, built_in_v6()))
}

/// Takes a published list, or refuses it.
pub fn adopt_manifest(e: &mut Endpoints, manifest: Endpoints, now: u64) -> (r: Adoption)
    ensures
        r == Adoption::Refused <==> !takes(old(e).serial, manifest.serial, manifest.v4@),
        r == Adoption::Refused ==> *final(e) == *old(e),
        r == Adoption::Changed <==> takes(old(e).serial, manifest.serial, manifest.v4@)
            && publishes_news(old(e).lists(), manifest.lists()),
        r != Adoption::Refused ==> {
            &&& final(e).lists() == published(old(e).lists(), manifest.lists())
            &&& final(e).serial == manifest.serial
            &&& final(e).updated@ == clipped(manifest.updated@, 100)
            &&& final(e).notice@ == clipped(manifest.notice@, 500)
            &&& final(e).source@ == "manifest"@
            &&& final(e).checked_at == now
        },
        final(e).serial >= old(e).serial,
        final(e).v == old(e).v,
        final(e).last_rescue_at == old(e).last_rescue_at,
{
    let clean = sanitised(manifest);
    if clean.v4.len() == 0 {
        return Adoption::Refused;
    }
    if clean.serial < e.serial {
        return Adoption::Refused;
    }
    let changed: bool = !same_set(&clean.v4, &effective_v4(e)) || !same_set(
        &clean.v6,
        &effective_v6(e),
    );
    let mut gone: Vec<IpAddr> = Vec::new();
    push_missing(&mut gone, &e.v4, &clean.v4);
    push_missing(&mut gone, &e.v6, &clean.v6);
    let mut more: Vec<IpAddr> = clean.retired;
    gone.append(&mut more);
    proof {
        let l = old(e).lists();
        assert(gone@ =~= all_gone(l, clean.v4@, clean.v6@, clean.retired@));
    }
    e.v4 = clean.v4;
    e.v6 = clean.v6;
    remember_retired(&mut e.retired, &gone);
    e.serial = clean.serial;
    e.updated = clean.updated;
    e.notice = clean.notice;
    e.source = "manifest".to_owned();
    e.checked_at = now;
    if changed {
        Adoption::Changed
    } else {
        Adoption::Same
    }
}

/// Whether the outside world may be asked at `now` when it was last asked at `last`. A time that
/// lies in the future counts for nothing.
pub open spec fn may_ask(last: u64, now: u64) -> bool {
    !(last <= now && now - last < RESCUE_COOLDOWN_SECS)
}

/// Asks whether the outside world may be asked; a yes starts the clock.
pub fn claim_rescue(e: &mut Endpoints, now: u64) -> (r: bool)
    ensures
        r == may_ask(old(e).last_rescue_at, now),
        !r ==> *final(e) == *old(e),
        r ==> *final(e) == (Endpoints { last_rescue_at: now, ..*old(e) }),
{
    if e.last_rescue_at <= now && now - e.last_rescue_at < RESCUE_COOLDOWN_SECS {
        return false;
    }
    e.last_rescue_at = now;
    true
}

/// The stamp that leaves a minute of the waiting time.
pub open spec fn relaxed(now: u64) -> u64 {
    if now < RESCUE_COOLDOWN_SECS - 60 {
        0
    } else {
        (now - (RESCUE_COOLDOWN_SECS - 60)) as u64
    }
}

/// Gives most of the waiting time back after an attempt that reached nothing at all.
pub fn relax_cooldown(e: &mut Endpoints, now: u64)
    ensures
        *final(e) == (Endpoints { last_rescue_at: relaxed(now), ..*old(e) }),
{
    e.last_rescue_at = now.saturating_sub(RESCUE_COOLDOWN_SECS - 60);
}

pub(crate) proof fn lemma_unique_all<T>(s: Seq<T>, xs: Seq<T>)
    ensures
        forall|x: T| #[trigger] unique_all(s, xs).contains(x) <==> s.contains(x) || xs.contains(x),
        s.len() <= unique_all(s, xs).len(),
        unique_all(s, xs).take(s.len() as int) == s,
        s.no_duplicates() ==> unique_all(s, xs).no_duplicates(),
    decreases xs.len(),
{
    let all = unique_all(s, xs);
    if xs.len() == 0 {
        assert(s.take(s.len() as int) =~= s);
    } else {
        let front = xs.drop_last();
        let before = unique_all(s, front);
        lemma_unique_all(s, front);
        assert forall|x: T| #[trigger] all.contains(x) <==> s.contains(x) || xs.contains(x) by {
            assert(before.contains(x) <==> s.contains(x) || front.contains(x));
            assert(xs.contains(x) <==> front.contains(x) || x == xs.last()) by {
                if xs.contains(x) {
                    let i = choose|i: int| 0 <= i < xs.len() && xs[i] == x;
                    if i < xs.len() - 1 {
                        assert(front[i] == x);
                    }
                }
                if front.contains(x) {
                    let i = choose|i: int| 0 <= i < front.len() && front[i] == x;
                    assert(xs[i] == x);
                }
                assert(xs[xs.len() - 1] == xs.last());
            }
            if !before.contains(xs.last()) {
                assert(all[all.len() - 1] == xs.last());
                if before.contains(x) {
                    let i = choose|i: int| 0 <= i < before.len() && before[i] == x;
                    assert(all[i] == x);
                }
                if all.contains(x) && x != xs.last() {
                    let i = choose|i: int| 0 <= i < all.len() && all[i] == x;
                    assert(before[i] == x);
                }
            }
        }
        assert(all.take(s.len() as int) =~= before.take(s.len() as int));
    }
}

proof fn lemma_marked<T: Address>(s: Seq<T>, marks: Seq<IpAddr>, yes: bool, x: T)
    requires
        s.contains(x),
        marks.contains(x.ip()) == yes,
    ensures
        marked(s, marks, yes).contains(x),
    decreases s.len(),
{
    let i = choose|i: int| 0 <= i < s.len() && s[i] == x;
    let m = marked(s, marks, yes);
    if i == s.len() - 1 {
        assert(m[m.len() - 1] == x);
    } else {
        assert(s.drop_last()[i] == x);
        lemma_marked(s.drop_last(), marks, yes, x);
        let before = marked(s.drop_last(), marks, yes);
        let k = choose|k: int| 0 <= k < before.len() && before[k] == x;
        assert(m[k] == x);
    }
}

proof fn lemma_order<T: Address>(learned: Seq<T>, built_in: Seq<T>, retired: Seq<IpAddr>)
    ensures
        forall|x: T| built_in.contains(x) ==> #[trigger] order(learned, built_in, retired).contains(
            x,
        ),
        forall|x: T| learned.contains(x) ==> #[trigger] order(learned, built_in, retired).contains(
            x,
        ),
        order(learned, built_in, retired).no_duplicates(),
        unique_all(Seq::<T>::empty(), learned).len() <= order(learned, built_in, retired).len(),
        order(learned, built_in, retired).take(
            unique_all(Seq::<T>::empty(), learned).len() as int,
        ) == unique_all(Seq::<T>::empty(), learned),
        learned.len() > 0 ==> order(learned, built_in, retired).len() > 0 && order(
            learned,
            built_in,
            retired,
        )[0] == learned[0],
{
    let none = Seq::<T>::empty();
    let fresh = marked(built_in, retired, false);
    let stale = marked(built_in, retired, true);
    let one = unique_all(none, learned);
    let two = unique_all(one, fresh);
    let three = unique_all(two, stale);
    lemma_unique_all(none, learned);
    lemma_unique_all(one, fresh);
    lemma_unique_all(two, stale);
    assert forall|x: T| built_in.contains(x) implies #[trigger] three.contains(x) by {
        lemma_marked(built_in, retired, retired.contains(x.ip()), x);
        assert(two.contains(x) || stale.contains(x));
    }
    assert forall|x: T| learned.contains(x) implies #[trigger] three.contains(x) by {
        assert(one.contains(x));
        assert(two.contains(x));
    }
    let n = one.len() as int;
    assert(three.take(n) =~= one) by {
        assert forall|i: int| 0 <= i < n implies three[i] == one[i] by {
            assert(three.take(two.len() as int)[i] == two[i]);
            assert(two.take(n)[i] == one[i]);
        }
    }
    if learned.len() > 0 {
        lemma_first_stays(learned);
        assert(three.take(n)[0] == one[0]);
    }
}

proof fn lemma_first_stays<T>(xs: Seq<T>)
    requires
        xs.len() > 0,
    ensures
        unique_all(Seq::<T>::empty(), xs).len() > 0,
        unique_all(Seq::<T>::empty(), xs)[0] == xs[0],
    decreases xs.len(),
{
    let none = Seq::<T>::empty();
    if xs.len() == 1 {
        assert(xs.drop_last() =~= none);
        assert(unique_all(none, xs.drop_last()) == none);
        assert(!none.contains(xs.last()));
    } else {
        lemma_first_stays(xs.drop_last());
    }
}

/// Whatever was learned, from whomever, every built-in address is still among the places to
/// connect to.
pub proof fn law_built_ins_stay_reachable(l: Lists)
    ensures
        forall|ip: Ipv4Addr|
            built_in_v4().contains(ip) ==> #[trigger] candidate_list(l).contains(
                SocketAddr { ip: IpAddr::V4(ip), port: DOH_PORT },
            ),
        forall|ip: Ipv6Addr|
            built_in_v6().contains(ip) ==> #[trigger] candidate_list(l).contains(
                SocketAddr { ip: IpAddr::V6(ip), port: DOH_PORT },
            ),
{
    let v4 = order(l.v4, built_in_v4(), l.retired);
    let v6 = order(l.v6, built_in_v6(), l.retired);
    let c = candidate_list(l);
    lemma_order(l.v4, built_in_v4(), l.retired);
    lemma_order(l.v6, built_in_v6(), l.retired);
    assert forall|ip: Ipv4Addr| built_in_v4().contains(ip) implies #[trigger] c.contains(
        SocketAddr { ip: IpAddr::V4(ip), port: DOH_PORT },
    ) by {
        assert(v4.contains(ip));
        let i = choose|i: int| 0 <= i < v4.len() && v4[i] == ip;
        assert(c[i] == (SocketAddr { ip: IpAddr::V4(ip), port: DOH_PORT }));
    }
    assert forall|ip: Ipv6Addr| built_in_v6().contains(ip) implies #[trigger] c.contains(
        SocketAddr { ip: IpAddr::V6(ip), port: DOH_PORT },
    ) by {
        assert(v6.contains(ip));
        let i = choose|i: int| 0 <= i < v6.len() && v6[i] == ip;
        assert(c[v4.len() + i] == (SocketAddr { ip: IpAddr::V6(ip), port: DOH_PORT }));
    }
}

proof fn lemma_marked_among<T: Address>(s: Seq<T>, marks: Seq<IpAddr>, yes: bool, i: int)
    requires
        0 <= i < marked(s, marks, yes).len(),
    ensures
        s.contains(marked(s, marks, yes)[i]),
        marks.contains(marked(s, marks, yes)[i].ip()) == yes,
    decreases s.len(),
{
    if s.len() > 0 {
        let before = marked(s.drop_last(), marks, yes);
        if i < before.len() {
            lemma_marked_among(s.drop_last(), marks, yes, i);
            let k = choose|k: int| 0 <= k < s.len() - 1 && s.drop_last()[k] == before[i];
            assert(s[k] == before[i]);
        } else {
            assert(s[s.len() - 1] == s.last());
        }
    }
}

proof fn lemma_only_these<T: Address>(learned: Seq<T>, built_in: Seq<T>, retired: Seq<IpAddr>, x: T)
    requires
        order(learned, built_in, retired).contains(x),
    ensures
        learned.contains(x) || built_in.contains(x),
{
    let fresh = marked(built_in, retired, false);
    let stale = marked(built_in, retired, true);
    let one = unique_all(Seq::empty(), learned);
    let two = unique_all(one, fresh);
    lemma_unique_all(Seq::empty(), learned);
    lemma_unique_all(one, fresh);
    lemma_unique_all(two, stale);
    if stale.contains(x) {
        let k = choose|k: int| 0 <= k < stale.len() && stale[k] == x;
        lemma_marked_among(built_in, retired, true, k);
    } else {
        assert(two.contains(x));
        if fresh.contains(x) {
            let k = choose|k: int| 0 <= k < fresh.len() && fresh[k] == x;
            lemma_marked_among(built_in, retired, false, k);
        } else {
            assert(one.contains(x));
        }
    }
}

/// Connections go to the addresses in the lists and to the built-in ones, at the one port, and to no
/// other. That an address is retired neither adds it to them nor takes it away.
pub proof fn law_what_is_tried(l: Lists)
    ensures
        forall|a: SocketAddr| #[trigger]
            candidate_list(l).contains(a) <==> a.port == DOH_PORT && (match a.ip {
                IpAddr::V4(ip) => l.v4.contains(ip) || built_in_v4().contains(ip),
                IpAddr::V6(ip) => l.v6.contains(ip) || built_in_v6().contains(ip),
            }),
{
    let v4 = order(l.v4, built_in_v4(), l.retired);
    let v6 = order(l.v6, built_in_v6(), l.retired);
    let c = candidate_list(l);
    lemma_order(l.v4, built_in_v4(), l.retired);
    lemma_order(l.v6, built_in_v6(), l.retired);
    assert forall|a: SocketAddr| #[trigger] c.contains(a) <==> a.port == DOH_PORT && (match a.ip {
        IpAddr::V4(ip) => l.v4.contains(ip) || built_in_v4().contains(ip),
        IpAddr::V6(ip) => l.v6.contains(ip) || built_in_v6().contains(ip),
    }) by {
        if c.contains(a) {
            let i = choose|i: int| 0 <= i < c.len() && c[i] == a;
            if i < v4.len() {
                assert(v4.contains(v4[i]));
                lemma_only_these(l.v4, built_in_v4(), l.retired, v4[i]);
            } else {
                assert(v6.contains(v6[i - v4.len()]));
                lemma_only_these(l.v6, built_in_v6(), l.retired, v6[i - v4.len()]);
            }
        } else if a.port == DOH_PORT {
            match a.ip {
                IpAddr::V4(ip) => {
                    if v4.contains(ip) {
                        let i = choose|i: int| 0 <= i < v4.len() && v4[i] == ip;
                        assert(c[i] == a);
                    }
                },
                IpAddr::V6(ip) => {
                    if v6.contains(ip) {
                        let i = choose|i: int| 0 <= i < v6.len() && v6[i] == ip;
                        assert(c[v4.len() + i] == a);
                    }
                },
            }
        }
    }
}

/// IPv4 is tried before IPv6, what was learned is tried before what is built in, and nothing is
/// tried twice.
pub proof fn law_order_of_attempts(l: Lists)
    ensures
        forall|i: int, j: int|
            #![trigger candidate_list(l)[i], candidate_list(l)[j]]
            0 <= i < j < candidate_list(l).len() && candidate_list(l)[j].ip is V4
                ==> candidate_list(l)[i].ip is V4,
        l.v4.len() > 0 ==> candidate_list(l).len() > 0 && candidate_list(l)[0].ip == IpAddr::V4(
            l.v4[0],
        ),
        forall|i: int|
            0 <= i < unique_all(Seq::<Ipv4Addr>::empty(), l.v4).len() ==> i < candidate_list(
                l,
            ).len() && #[trigger] candidate_list(l)[i].ip == IpAddr::V4(
                unique_all(Seq::<Ipv4Addr>::empty(), l.v4)[i],
            ),
        forall|i: int|
            0 <= i < unique_all(Seq::<Ipv6Addr>::empty(), l.v6).len() ==> {
                let at = order(l.v4, built_in_v4(), l.retired).len() + i;
                at < candidate_list(l).len() && candidate_list(l)[at].ip == IpAddr::V6(
                    #[trigger] unique_all(Seq::<Ipv6Addr>::empty(), l.v6)[i],
                )
            },
        candidate_list(l).no_duplicates(),
        forall|i: int|
            0 <= i < candidate_list(l).len() ==> #[trigger] candidate_list(l)[i].port == DOH_PORT,
{
    let v4 = order(l.v4, built_in_v4(), l.retired);
    let v6 = order(l.v6, built_in_v6(), l.retired);
    let c = candidate_list(l);
    lemma_order(l.v4, built_in_v4(), l.retired);
    lemma_order(l.v6, built_in_v6(), l.retired);
    let first = unique_all(Seq::<Ipv4Addr>::empty(), l.v4);
    assert forall|i: int| 0 <= i < first.len() implies i < c.len() && #[trigger] c[i].ip
        == IpAddr::V4(first[i]) by {
        assert(v4.take(first.len() as int)[i] == v4[i]);
    }
    let later = unique_all(Seq::<Ipv6Addr>::empty(), l.v6);
    assert forall|i: int| 0 <= i < later.len() implies v4.len() + i < c.len() && c[v4.len() + i].ip
        == IpAddr::V6(#[trigger] later[i]) by {
        assert(v6.take(later.len() as int)[i] == v6[i]);
    }
    assert forall|i: int, j: int| 0 <= i < c.len() && 0 <= j < c.len() && i != j implies c[i]
        != c[j] by {
        let n = v4.len() as int;
        if i < n && j < n {
            assert(v4[i] != v4[j]);
        } else if i >= n && j >= n {
            assert(v6[i - n] != v6[j - n]);
        }
    }
}

proof fn lemma_new_ones<T>(s: Seq<T>, xs: Seq<T>, i: int)
    requires
        s.len() <= i < unique_all(s, xs).len(),
    ensures
        xs.contains(unique_all(s, xs)[i]),
        !s.contains(unique_all(s, xs)[i]),
    decreases xs.len(),
{
    if xs.len() > 0 {
        let before = unique_all(s, xs.drop_last());
        lemma_unique_all(s, xs.drop_last());
        if i < before.len() {
            lemma_new_ones(s, xs.drop_last(), i);
            let k = choose|k: int| 0 <= k < xs.len() - 1 && xs.drop_last()[k] == before[i];
            assert(xs[k] == before[i]);
        } else {
            assert(xs[xs.len() - 1] == xs.last());
        }
    }
}

/// A built-in address that is retired is tried last: in its family only others of the same kind come
/// behind it.
pub proof fn law_retired_built_ins_come_last<T: Address>(
    learned: Seq<T>,
    built_in: Seq<T>,
    retired: Seq<IpAddr>,
    i: int,
    j: int,
)
    requires
        0 <= i < j < order(learned, built_in, retired).len(),
        !learned.contains(order(learned, built_in, retired)[i]),
        retired.contains(order(learned, built_in, retired)[i].ip()),
    ensures
        !learned.contains(order(learned, built_in, retired)[j]),
        built_in.contains(order(learned, built_in, retired)[j]),
        retired.contains(order(learned, built_in, retired)[j].ip()),
{
    let fresh = marked(built_in, retired, false);
    let last = marked(built_in, retired, true);
    let first = unique_all(Seq::empty(), learned);
    let second = unique_all(first, fresh);
    let all = unique_all(second, last);
    lemma_unique_all(Seq::empty(), learned);
    lemma_unique_all(first, fresh);
    lemma_unique_all(second, last);
    if i < second.len() {
        assert(all.take(second.len() as int)[i] == second[i]);
        if i < first.len() {
            assert(second.take(first.len() as int)[i] == first[i]);
            assert(first.contains(first[i]));
        } else {
            lemma_new_ones(first, fresh, i);
            let k = choose|k: int| 0 <= k < fresh.len() && fresh[k] == second[i];
            lemma_marked_among(built_in, retired, false, k);
        }
    }
    lemma_new_ones(second, last, j);
    let k = choose|k: int| 0 <= k < last.len() && last[k] == all[j];
    lemma_marked_among(built_in, retired, true, k);
    if learned.contains(all[j]) {
        assert(first.contains(all[j]));
        assert(second.contains(all[j]));
    }
}

/// The addresses that are known are the built-in ones, those in the lists and the retired ones.
pub proof fn law_known_addresses(l: Lists)
    ensures
        forall|ip: IpAddr| #[trigger]
            known(l).contains(ip) <==> ips(built_in_v4()).contains(ip) || ips(
                built_in_v6(),
            ).contains(ip) || ips(l.v4).contains(ip) || ips(l.v6).contains(ip)
                || l.retired.contains(ip),
        known(l).no_duplicates(),
{
    let none = Seq::<IpAddr>::empty();
    let a = unique_all(none, ips(built_in_v4()));
    let b = unique_all(a, ips(built_in_v6()));
    let c = unique_all(b, ips(l.v4));
    let d = unique_all(c, ips(l.v6));
    let e = unique_all(d, l.retired);
    lemma_unique_all(none, ips(built_in_v4()));
    lemma_unique_all(a, ips(built_in_v6()));
    lemma_unique_all(b, ips(l.v4));
    lemma_unique_all(c, ips(l.v6));
    lemma_unique_all(d, l.retired);
    assert forall|ip: IpAddr| #[trigger] e.contains(ip) <==> ips(built_in_v4()).contains(ip) || ips(
        built_in_v6(),
    ).contains(ip) || ips(l.v4).contains(ip) || ips(l.v6).contains(ip) || l.retired.contains(
        ip,
    ) by {
        assert(a.contains(ip) <==> none.contains(ip) || ips(built_in_v4()).contains(ip));
        assert(b.contains(ip) <==> a.contains(ip) || ips(built_in_v6()).contains(ip));
        assert(c.contains(ip) <==> b.contains(ip) || ips(l.v4).contains(ip));
        assert(d.contains(ip) <==> c.contains(ip) || ips(l.v6).contains(ip));
    }
}

proof fn lemma_ips_contains<T: Address>(s: Seq<T>, x: T)
    requires
        s.contains(x),
    ensures
        ips(s).contains(x.ip()),
{
    let i = choose|i: int| 0 <= i < s.len() && s[i] == x;
    assert(ips(s)[i] == x.ip());
}

proof fn lemma_missing<T>(s: Seq<T>, there: Seq<T>, x: T)
    requires
        s.contains(x),
        !there.contains(x),
    ensures
        missing(s, there).contains(x),
    decreases s.len(),
{
    let i = choose|i: int| 0 <= i < s.len() && s[i] == x;
    let m = missing(s, there);
    if i == s.len() - 1 {
        assert(m[m.len() - 1] == x);
    } else {
        assert(s.drop_last()[i] == x);
        lemma_missing(s.drop_last(), there, x);
        let before = missing(s.drop_last(), there);
        let k = choose|k: int| 0 <= k < before.len() && before[k] == x;
        assert(m[k] == x);
    }
}

/// What leaves the lists is retired: after they were replaced, an address that was known is known
/// still, unless it is one of the oldest retired ones, of which there had become too many.
pub proof fn law_nothing_is_forgotten(
    l: Lists,
    v4: Seq<Ipv4Addr>,
    v6: Seq<Ipv6Addr>,
    gone: Seq<IpAddr>,
    ip: IpAddr,
)
    requires
        known(l).contains(ip),
    ensures
        ({
            let all = unique_all(l.retired, all_gone(l, v4, v6, gone));
            ||| known(renewed(l, v4, v6, gone)).contains(ip)
            ||| all.len() > MAX_RETIRED && all.take(all.len() - MAX_RETIRED).contains(ip)
        }),
{
    let more = all_gone(l, v4, v6, gone);
    let all = unique_all(l.retired, more);
    let n = renewed(l, v4, v6, gone);
    law_known_addresses(l);
    law_known_addresses(n);
    lemma_unique_all(l.retired, more);
    assert(all.contains(ip) ==> n.retired.contains(ip) || (all.len() > MAX_RETIRED && all.take(
        all.len() - MAX_RETIRED,
    ).contains(ip))) by {
        if all.contains(ip) {
            let i = choose|i: int| 0 <= i < all.len() && all[i] == ip;
            if all.len() > MAX_RETIRED {
                let cut = all.len() - MAX_RETIRED;
                if i < cut {
                    assert(all.take(cut)[i] == ip);
                } else {
                    assert(all.skip(cut)[i - cut] == ip);
                }
            }
        }
    }
    let (a, b) = (ips(missing(l.v4, v4)), ips(missing(l.v6, v6)));
    if ips(l.v4).contains(ip) {
        let i = choose|i: int| 0 <= i < ips(l.v4).len() && ips(l.v4)[i] == ip;
        let x = l.v4[i];
        assert(l.v4.contains(x));
        if v4.contains(x) {
            lemma_ips_contains(v4, x);
        } else {
            lemma_missing(l.v4, v4, x);
            lemma_ips_contains(missing(l.v4, v4), x);
            let k = choose|k: int| 0 <= k < a.len() && a[k] == ip;
            assert(more[k] == ip);
            assert(all.contains(ip));
        }
    }
    if ips(l.v6).contains(ip) {
        let i = choose|i: int| 0 <= i < ips(l.v6).len() && ips(l.v6)[i] == ip;
        let x = l.v6[i];
        assert(l.v6.contains(x));
        if v6.contains(x) {
            lemma_ips_contains(v6, x);
        } else {
            lemma_missing(l.v6, v6, x);
            lemma_ips_contains(missing(l.v6, v6), x);
            let k = choose|k: int| 0 <= k < b.len() && b[k] == ip;
            assert(more[a.len() + k] == ip);
            assert(all.contains(ip));
        }
    }
    if l.retired.contains(ip) {
        assert(all.contains(ip));
    }
}

/// The retired list is bounded, holds nothing twice if it did not before, and ends with the
/// addresses that were retired last.
pub proof fn law_retired_is_bounded(retired: Seq<IpAddr>, gone: Seq<IpAddr>)
    ensures
        remembered(retired, gone).len() <= MAX_RETIRED,
        retired.no_duplicates() ==> remembered(retired, gone).no_duplicates(),
        unique_all(retired, gone).len() <= MAX_RETIRED ==> remembered(retired, gone)
            == unique_all(retired, gone),
        remembered(retired, gone).is_suffix_of(unique_all(retired, gone)),
{
    let all = unique_all(retired, gone);
    let kept = remembered(retired, gone);
    lemma_unique_all(retired, gone);
    assert(all.subrange(all.len() - kept.len(), all.len() as int) =~= kept);
    if retired.no_duplicates() {
        assert forall|i: int, j: int|
            0 <= i < kept.len() && 0 <= j < kept.len() && i != j implies kept[i] != kept[j] by {
            let d = all.len() - kept.len();
            assert(kept[i] == all[i + d] && kept[j] == all[j + d]);
        }
    }
}

/// An answer that names the addresses of a list in another order is no news.
pub proof fn law_order_is_no_change<T>(a: Seq<T>, b: Seq<T>)
    requires
        a.to_multiset() == b.to_multiset(),
    ensures
        same_addresses(a, b),
{
    broadcast use vstd::seq_lib::group_to_multiset_ensures;

    assert(a.len() == a.to_multiset().len());
    assert(b.len() == b.to_multiset().len());
    assert forall|i: int| 0 <= i < a.len() implies b.contains(#[trigger] a[i]) by {
        assert(a.contains(a[i]));
        assert(a.to_multiset().count(a[i]) > 0);
        assert(b.to_multiset().count(a[i]) > 0);
    }
    assert forall|i: int| 0 <= i < b.len() implies a.contains(#[trigger] b[i]) by {
        assert(b.contains(b[i]));
        assert(b.to_multiset().count(b[i]) > 0);
        assert(a.to_multiset().count(b[i]) > 0);
    }
}

/// Lists that pass for the same do name the same addresses, and which of the two is asked about first
/// makes no difference.
pub proof fn law_same_means_same<T>(a: Seq<T>, b: Seq<T>)
    ensures
        same_addresses(a, b) ==> a.to_set() == b.to_set(),
        same_addresses(a, b) == same_addresses(b, a),
{
    if same_addresses(a, b) {
        assert forall|x: T| a.to_set().contains(x) == b.to_set().contains(x) by {
            if a.contains(x) {
                let i = choose|i: int| 0 <= i < a.len() && a[i] == x;
                assert(b.contains(a[i]));
            }
            if b.contains(x) {
                let i = choose|i: int| 0 <= i < b.len() && b[i] == x;
                assert(a.contains(b[i]));
            }
        }
        assert(a.to_set() =~= b.to_set());
    }
}

proof fn lemma_missing_public<T: Address>(s: Seq<T>, there: Seq<T>)
    requires
        all_public(s),
    ensures
        all_public(missing(s, there)),
    decreases s.len(),
{
    if s.len() > 0 {
        assert(all_public(s.drop_last())) by {
            assert forall|i: int| 0 <= i < s.len() - 1 implies (
            #[trigger] s.drop_last()[i]).public() by {
                assert(s[i].public());
            }
        }
        lemma_missing_public(s.drop_last(), there);
        assert(s[s.len() - 1].public());
    }
}

proof fn lemma_unique_all_public(s: Seq<IpAddr>, xs: Seq<IpAddr>)
    requires
        all_public(s),
        all_public(xs),
    ensures
        all_public(unique_all(s, xs)),
{
    let all = unique_all(s, xs);
    lemma_unique_all(s, xs);
    assert forall|i: int| 0 <= i < all.len() implies (#[trigger] all[i]).public() by {
        assert(all.contains(all[i]));
        if s.contains(all[i]) {
            let k = choose|k: int| 0 <= k < s.len() && s[k] == all[i];
            assert(s[k].public());
        } else {
            let k = choose|k: int| 0 <= k < xs.len() && xs[k] == all[i];
            assert(xs[k].public());
        }
    }
}

proof fn lemma_renewed_sane(l: Lists, v4: Seq<Ipv4Addr>, v6: Seq<Ipv6Addr>, gone: Seq<IpAddr>)
    requires
        sane_lists(l),
        all_public(v4),
        all_public(v6),
        all_public(gone),
        v4.len() <= MAX_ADDRS,
        v6.len() <= MAX_ADDRS,
    ensures
        sane_lists(renewed(l, v4, v6, gone)),
{
    let more = all_gone(l, v4, v6, gone);
    let (m4, m6) = (missing(l.v4, v4), missing(l.v6, v6));
    lemma_missing_public(l.v4, v4);
    lemma_missing_public(l.v6, v6);
    assert(all_public(more)) by {
        assert forall|i: int| 0 <= i < more.len() implies (#[trigger] more[i]).public() by {
            if i < m4.len() {
                assert(more[i] == m4[i].ip());
                assert(m4[i].public());
            } else if i < m4.len() + m6.len() {
                assert(more[i] == m6[i - m4.len()].ip());
                assert(m6[i - m4.len()].public());
            } else {
                assert(more[i] == gone[i - m4.len() - m6.len()]);
            }
        }
    }
    lemma_unique_all_public(l.retired, more);
    let all = unique_all(l.retired, more);
    let kept = remembered(l.retired, more);
    assert forall|i: int| 0 <= i < kept.len() implies (#[trigger] kept[i]).public() by {
        assert(kept[i] == all[i + all.len() - kept.len()]);
        assert(all[i + all.len() - kept.len()].public());
    }
}

/// Lists that hold usable addresses only, and no more than they may, stay so whatever arrives.
pub proof fn law_lists_stay_sane(l: Lists, m: Lists)
    requires
        sane_lists(l),
    ensures
        sane_lists(answered(l, m.v4, m.v6)),
        sane_lists(published(l, m)),
{
    lemma_cleaned(m.v4, MAX_ADDRS as nat);
    lemma_cleaned(m.v6, MAX_ADDRS as nat);
    lemma_cleaned(m.retired, MAX_RETIRED as nat);
    let v4 = cleaned(m.v4, MAX_ADDRS as nat);
    let v6 = cleaned(m.v6, MAX_ADDRS as nat);
    lemma_renewed_sane(l, v4, v6_after(l.v6, v6), Seq::empty());
    lemma_renewed_sane(l, v4, v6, cleaned(m.retired, MAX_RETIRED as nat));
}

/// What was cleaned stays as it is when it is cleaned again.
pub proof fn law_cleaning_twice_is_cleaning_once(m: Lists, text: Seq<char>, max: nat)
    ensures
        cleaned(cleaned(m.v4, MAX_ADDRS as nat), MAX_ADDRS as nat) == cleaned(
            m.v4,
            MAX_ADDRS as nat,
        ),
        cleaned(cleaned(m.v6, MAX_ADDRS as nat), MAX_ADDRS as nat) == cleaned(
            m.v6,
            MAX_ADDRS as nat,
        ),
        cleaned(cleaned(m.retired, MAX_RETIRED as nat), MAX_RETIRED as nat) == cleaned(
            m.retired,
            MAX_RETIRED as nat,
        ),
        clipped(clipped(text, max), max) == clipped(text, max),
{
    lemma_cleaned(m.v4, MAX_ADDRS as nat);
    lemma_cleaned(m.v6, MAX_ADDRS as nat);
    lemma_cleaned(m.retired, MAX_RETIRED as nat);
    lemma_cleaned(cleaned(m.v4, MAX_ADDRS as nat), MAX_ADDRS as nat);
    lemma_cleaned(cleaned(m.v6, MAX_ADDRS as nat), MAX_ADDRS as nat);
    lemma_cleaned(cleaned(m.retired, MAX_RETIRED as nat), MAX_RETIRED as nat);
    lemma_clipped_fits(text, max);
}

/// The same answer a second time teaches nothing, and leaves the lists as they are.
pub proof fn law_learning_twice_is_learning_once(l: Lists, v4: Seq<Ipv4Addr>, v6: Seq<Ipv6Addr>)
    requires
        answer_adoption(l, v4, v6) != Adoption::Refused,
    ensures
        answer_adoption(answered(l, v4, v6), v4, v6) == Adoption::Same,
        answered(answered(l, v4, v6), v4, v6) == answered(l, v4, v6),
{
    let n = answered(l, v4, v6);
    let f4 = cleaned(v4, MAX_ADDRS as nat);
    let f6 = cleaned(v6, MAX_ADDRS as nat);
    assert(forall|i: int| 0 <= i < f4.len() ==> f4.contains(#[trigger] f4[i]));
    assert(forall|i: int| 0 <= i < f6.len() ==> f6.contains(#[trigger] f6[i]));
    assert(forall|i: int| 0 <= i < n.v6.len() ==> n.v6.contains(#[trigger] n.v6[i]));
    lemma_none_missing(f4, f4);
    lemma_none_missing(n.v6, n.v6);
    let more = all_gone(n, f4, v6_after(n.v6, f6), Seq::empty());
    assert(more =~= Seq::<IpAddr>::empty());
    assert(remembered(n.retired, more) =~= n.retired);
    assert(answered(n, v4, v6) =~= n);
}

/// An answer without IPv6 addresses does not take the known ones away, and one without usable
/// IPv4 addresses changes nothing at all.
pub proof fn law_poor_answers_do_no_harm(l: Lists, v4: Seq<Ipv4Addr>, v6: Seq<Ipv6Addr>)
    ensures
        publics(v6).len() == 0 ==> answered(l, v4, v6).v6 == l.v6,
        publics(v4).len() == 0 ==> answered(l, v4, v6) == l && answer_adoption(l, v4, v6)
            == Adoption::Refused,
{
}

/// After a yes the outside world is left alone for the whole waiting time, however often it is
/// asked for, and may be asked again at its end.
pub proof fn law_waiting_time(now: u64, later: u64)
    requires
        now <= later,
    ensures
        may_ask(now, later) <==> later - now >= RESCUE_COOLDOWN_SECS,
{
}

/// After an attempt that reached nothing, a minute of the waiting time is left; where the clock stands
/// so near its beginning that this much cannot be given back, it may be asked again once the whole
/// waiting time has passed since then.
pub proof fn law_relaxed_waiting_time(now: u64, later: u64)
    requires
        now <= later,
    ensures
        may_ask(relaxed(now), later) <==> (if now >= RESCUE_COOLDOWN_SECS - 60 {
            later - now >= 60
        } else {
            later >= RESCUE_COOLDOWN_SECS
        }),
{
}

/// The addresses of a list that can be reached from everywhere, in their order.
pub proof fn law_usable_addresses<T: Address>(s: Seq<T>, max: nat)
    ensures
        publics(s) == s.filter(|x: T| x.public()),
        s.filter(|x: T| x.public()).len() <= max ==> cleaned(s, max) == s.filter(
            |x: T| x.public(),
        ),
        s.filter(|x: T| x.public()).len() > max ==> cleaned(s, max) == s.filter(
            |x: T| x.public(),
        ).take(max as int),
    decreases s.len(),
{
    reveal(Seq::filter);
    if s.len() > 0 {
        law_usable_addresses(s.drop_last(), max);
    }
    assert(publics(s) =~= s.filter(|x: T| x.public()));
}

/// What a list holds that another does not, in its order.
pub proof fn law_missing_addresses<T>(s: Seq<T>, there: Seq<T>)
    ensures
        missing(s, there) == s.filter(|x: T| !there.contains(x)),
    decreases s.len(),
{
    reveal(Seq::filter);
    if s.len() > 0 {
        law_missing_addresses(s.drop_last(), there);
    }
    assert(missing(s, there) =~= s.filter(|x: T| !there.contains(x)));
}

proof fn lemma_marked_is_filtered<T: Address>(s: Seq<T>, marks: Seq<IpAddr>, yes: bool)
    ensures
        marked(s, marks, yes) == s.filter(|x: T| marks.contains(x.ip()) == yes),
    decreases s.len(),
{
    reveal(Seq::filter);
    if s.len() > 0 {
        lemma_marked_is_filtered(s.drop_last(), marks, yes);
    }
    assert(marked(s, marks, yes) =~= s.filter(|x: T| marks.contains(x.ip()) == yes));
}

/// Adding to a list without repeating: each of what is added goes to the end unless it is there by
/// then.
pub proof fn law_added_once<T>(s: Seq<T>, xs: Seq<T>, ys: Seq<T>, x: T)
    ensures
        unique_all(s, Seq::empty()) == s,
        unique_all(s, seq![x]) == (if s.contains(x) {
            s
        } else {
            s.push(x)
        }),
        unique_all(s, xs + ys) == unique_all(unique_all(s, xs), ys),
    decreases ys.len(),
{
    reveal_with_fuel(unique_all, 2);
    assert(seq![x].drop_last() =~= Seq::<T>::empty());
    if ys.len() == 0 {
        assert(xs + ys =~= xs);
    } else {
        law_added_once(s, xs, ys.drop_last(), x);
        assert((xs + ys).drop_last() =~= xs + ys.drop_last());
        assert((xs + ys).last() == ys.last());
    }
}

/// The order in which addresses of one family are tried: those that were learned, then the built-in
/// ones that are not retired, then the retired ones, none of them twice.
pub proof fn law_order_of_one_family<T: Address>(
    learned: Seq<T>,
    built_in: Seq<T>,
    retired: Seq<IpAddr>,
)
    ensures
        order(learned, built_in, retired) == unique_all(
            Seq::empty(),
            learned + built_in.filter(|x: T| !retired.contains(x.ip())) + built_in.filter(
                |x: T| retired.contains(x.ip()),
            ),
        ),
{
    let fresh = built_in.filter(|x: T| !retired.contains(x.ip()));
    let old_ones = built_in.filter(|x: T| retired.contains(x.ip()));
    lemma_marked_is_filtered(built_in, retired, false);
    lemma_marked_is_filtered(built_in, retired, true);
    assert((|x: T| retired.contains(x.ip()) == false) =~= (|x: T| !retired.contains(x.ip())));
    assert((|x: T| retired.contains(x.ip()) == true) =~= (|x: T| retired.contains(x.ip())));
    lemma_added_in_turn(Seq::empty(), learned, fresh);
    lemma_added_in_turn(Seq::empty(), learned + fresh, old_ones);
}

proof fn lemma_added_in_turn<T>(s: Seq<T>, xs: Seq<T>, ys: Seq<T>)
    ensures
        unique_all(s, xs + ys) == unique_all(unique_all(s, xs), ys),
    decreases ys.len(),
{
    if ys.len() == 0 {
        assert(xs + ys =~= xs);
    } else {
        lemma_added_in_turn(s, xs, ys.drop_last());
        assert((xs + ys).drop_last() =~= xs + ys.drop_last());
        assert((xs + ys).last() == ys.last());
    }
}

/// What is tried is what is tried of the one family and then what is tried of the other, all on port
/// 443; and what is known is, in this order, what is built in, what was learned, and what is retired.
pub proof fn law_all_candidates_in_their_order(l: Lists, i: int)
    ensures
        ({
            let v4 = order(l.v4, built_in_v4(), l.retired);
            let v6 = order(l.v6, built_in_v6(), l.retired);
            &&& candidate_list(l).len() == v4.len() + v6.len()
            &&& 0 <= i < v4.len() ==> candidate_list(l)[i] == (SocketAddr {
                ip: IpAddr::V4(v4[i]),
                port: 443,
            })
            &&& 0 <= i < v6.len() ==> candidate_list(l)[v4.len() + i] == (SocketAddr {
                ip: IpAddr::V6(v6[i]),
                port: 443,
            })
        }),
        known(l) == unique_all(
            Seq::empty(),
            ips(built_in_v4()) + ips(built_in_v6()) + ips(l.v4) + ips(l.v6) + l.retired,
        ),
{
    let none = Seq::<IpAddr>::empty();
    let a = ips(built_in_v4());
    let b = ips(built_in_v6());
    lemma_added_in_turn(none, a, b);
    lemma_added_in_turn(none, a + b, ips(l.v4));
    lemma_added_in_turn(none, a + b + ips(l.v4), ips(l.v6));
    lemma_added_in_turn(none, a + b + ips(l.v4) + ips(l.v6), l.retired);
}

/// Two lists name the same addresses where they are of one length, and each address of either is in the
/// other.
pub proof fn law_when_lists_are_the_same<T>(a: Seq<T>, b: Seq<T>)
    ensures
        same_addresses(a, b) <==> a.len() == b.len() && (forall|x: T|
            #[trigger] a.contains(x) <==> b.contains(x)),
{
    if same_addresses(a, b) {
        assert forall|x: T| #[trigger] a.contains(x) <==> b.contains(x) by {
            if a.contains(x) {
                let i = choose|i: int| 0 <= i < a.len() && a[i] == x;
                assert(b.contains(a[i]));
            }
            if b.contains(x) {
                let i = choose|i: int| 0 <= i < b.len() && b[i] == x;
                assert(a.contains(b[i]));
            }
        }
    }
    if a.len() == b.len() && (forall|x: T| #[trigger] a.contains(x) <==> b.contains(x)) {
        assert forall|i: int| 0 <= i < a.len() implies b.contains(#[trigger] a[i]) by {
            assert(a.contains(a[i]));
        }
        assert forall|i: int| 0 <= i < b.len() implies a.contains(#[trigger] b[i]) by {
            assert(b.contains(b[i]));
            assert(a.contains(b[i]));
        }
    }
}

/// Of the addresses that are no longer in use, the latest thirty-two are remembered, the oldest first.
pub proof fn law_the_latest_are_remembered(retired: Seq<IpAddr>, gone: Seq<IpAddr>, i: int)
    ensures
        ({
            let all = unique_all(retired, gone);
            &&& all.len() <= 32 ==> remembered(retired, gone) == all
            &&& all.len() > 32 ==> remembered(retired, gone).len() == 32
            &&& all.len() > 32 && 0 <= i < 32 ==> remembered(retired, gone)[i] == all[all.len() - 32
                + i]
        }),
{
}

/// What an answer of the resolver's own teaches: the first eight of its usable IPv4 addresses, the first
/// eight of its usable IPv6 addresses or, where it names none, those that were known; what is dropped on
/// the way is remembered, IPv4 before IPv6. An answer without a usable IPv4 address teaches nothing.
pub proof fn law_what_an_answer_teaches(l: Lists, v4: Seq<Ipv4Addr>, v6: Seq<Ipv6Addr>)
    ensures
        ({
            let good4 = v4.filter(|x: Ipv4Addr| public_v4(x));
            let good6 = v6.filter(|x: Ipv6Addr| public_v6(x));
            let new4 = if good4.len() > 8 {
                good4.take(8)
            } else {
                good4
            };
            let new6 = if good6.len() == 0 {
                l.v6
            } else if good6.len() > 8 {
                good6.take(8)
            } else {
                good6
            };
            &&& good4.len() == 0 ==> answered(l, v4, v6) == l
            &&& good4.len() > 0 ==> {
                &&& answered(l, v4, v6).v4 == new4
                &&& answered(l, v4, v6).v6 == new6
                &&& answered(l, v4, v6).retired == remembered(
                    l.retired,
                    ips(l.v4.filter(|x: Ipv4Addr| !new4.contains(x))) + ips(
                        l.v6.filter(|x: Ipv6Addr| !new6.contains(x)),
                    ),
                )
            }
        }),
{
    law_usable_addresses(v4, 8);
    law_usable_addresses(v6, 8);
    assert((|x: Ipv4Addr| x.public()) =~= (|x: Ipv4Addr| public_v4(x)));
    assert((|x: Ipv6Addr| x.public()) =~= (|x: Ipv6Addr| public_v6(x)));
    let n = answered(l, v4, v6);
    law_missing_addresses(l.v4, n.v4);
    law_missing_addresses(l.v6, n.v6);
    let gone = ips(missing(l.v4, n.v4)) + ips(missing(l.v6, n.v6));
    assert(gone + Seq::<IpAddr>::empty() =~= gone);
}

/// Whether an answer of the resolver's own is news: it is refused where it names no usable IPv4 address,
/// and no news where it names the addresses that are in use, those of IPv6 only where it names any.
pub proof fn law_when_an_answer_is_news(l: Lists, v4: Seq<Ipv4Addr>, v6: Seq<Ipv6Addr>)
    ensures
        ({
            let new4 = cleaned(v4, 8);
            let new6 = cleaned(v6, 8);
            let used4 = if l.v4.len() == 0 {
                built_in_v4()
            } else {
                l.v4
            };
            let used6 = if l.v6.len() == 0 {
                built_in_v6()
            } else {
                l.v6
            };
            let same = same_addresses(new4, used4) && (new6.len() == 0 || same_addresses(
                new6,
                used6,
            ));
            &&& answer_adoption(l, v4, v6) == Adoption::Refused <==> new4.len() == 0
            &&& answer_adoption(l, v4, v6) == Adoption::Same <==> new4.len() > 0 && same
            &&& answer_adoption(l, v4, v6) == Adoption::Changed <==> new4.len() > 0 && !same
        }),
{
}

/// What a published list teaches: it is taken where it names a usable IPv4 address and is no older than
/// the last one; then its usable addresses replace those that were learned, eight of each family at
/// most, and what is dropped and what it names as retired is remembered.
pub proof fn law_what_a_published_list_teaches(
    l: Lists,
    m: Lists,
    serial: u64,
    m_serial: u64,
)
    ensures
        takes(serial, m_serial, m.v4) <==> m_serial >= serial && exists|i: int|
            0 <= i < m.v4.len() && public_v4(#[trigger] m.v4[i]),
        published(l, m).v4 == cleaned(m.v4, 8),
        published(l, m).v6 == cleaned(m.v6, 8),
        published(l, m).retired == remembered(
            l.retired,
            ips(l.v4.filter(|x: Ipv4Addr| !cleaned(m.v4, 8).contains(x))) + ips(
                l.v6.filter(|x: Ipv6Addr| !cleaned(m.v6, 8).contains(x)),
            ) + cleaned(m.retired, 32),
        ),
        ({
            let used4 = if l.v4.len() == 0 {
                built_in_v4()
            } else {
                l.v4
            };
            let used6 = if l.v6.len() == 0 {
                built_in_v6()
            } else {
                l.v6
            };
            publishes_news(l, m) <==> !(same_addresses(cleaned(m.v4, 8), used4) && same_addresses(
                cleaned(m.v6, 8),
                used6,
            ))
        }),
{
    law_missing_addresses(l.v4, cleaned(m.v4, 8));
    law_missing_addresses(l.v6, cleaned(m.v6, 8));
    lemma_some_public(m.v4);
}

proof fn lemma_some_public(s: Seq<Ipv4Addr>)
    ensures
        publics(s).len() > 0 <==> exists|i: int| 0 <= i < s.len() && public_v4(#[trigger] s[i]),
    decreases s.len(),
{
    if s.len() > 0 {
        let front = s.drop_last();
        lemma_some_public(front);
        if public_v4(s.last()) {
            assert(public_v4(s[s.len() - 1]));
        }
        if exists|i: int| 0 <= i < front.len() && public_v4(#[trigger] front[i]) {
            let i = choose|i: int| 0 <= i < front.len() && public_v4(#[trigger] front[i]);
            assert(public_v4(s[i]));
        }
        if exists|i: int| 0 <= i < s.len() && public_v4(#[trigger] s[i]) {
            let i = choose|i: int| 0 <= i < s.len() && public_v4(#[trigger] s[i]);
            if i < front.len() {
                assert(public_v4(front[i]));
            }
        }
    }
}

/// The limits that are kept: eight addresses of a family, thirty-two retired ones, half an hour between
/// two searches; and a clock that was set back does not put one off.
pub proof fn law_limits_of_learning(last: u64, now: u64)
    ensures
        MAX_ADDRS == 8,
        MAX_RETIRED == 32,
        DOH_PORT == 443,
        FORMAT == 1,
        RESCUE_COOLDOWN_SECS == 1800,
        now < last ==> may_ask(last, now),
        last <= now ==> (may_ask(last, now) <==> now - last >= 1800),
        now >= 1740 ==> relaxed(now) == now - 1740,
        now < 1740 ==> relaxed(now) == 0,
{
}

/// A mark of the byte order in front of a text is taken off, once; a text without one stays.
pub proof fn law_the_byte_order_mark(s: Seq<char>)
    ensures
        without_bom(seq!['\u{feff}'] + s) == s,
        s.len() == 0 || s[0] != '\u{feff}' ==> without_bom(s) == s,
{
    assert((seq!['\u{feff}'] + s).skip(1) =~= s);
}

/// What a sane list is: nothing in it but public addresses, at most eight of a family and thirty-two
/// retired ones, and texts of at most 500 and 100 bytes.
pub proof fn law_what_is_sane(e: Endpoints)
    ensures
        e.sane() <==> {
            &&& e.v4@.len() <= 8 && e.v6@.len() <= 8 && e.retired@.len() <= 32
            &&& forall|i: int| 0 <= i < e.v4@.len() ==> public_v4(#[trigger] e.v4@[i])
            &&& forall|i: int| 0 <= i < e.v6@.len() ==> public_v6(#[trigger] e.v6@[i])
            &&& forall|i: int| 0 <= i < e.retired@.len() ==> (#[trigger] e.retired@[i]).public()
            &&& encode_utf8(e.notice@).len() <= 500
            &&& encode_utf8(e.updated@).len() <= 100
        },
{
    assert(all_public(e.v4@) <==> forall|i: int|
        0 <= i < e.v4@.len() ==> public_v4(#[trigger] e.v4@[i]));
    assert(all_public(e.v6@) <==> forall|i: int|
        0 <= i < e.v6@.len() ==> public_v6(#[trigger] e.v6@[i]));
}

} // verus!
