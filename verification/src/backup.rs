//! What the machine's DNS settings were before they were changed.
//!
//! What can be undone is what was recorded, so a record is made before the first change, and an
//! earlier record is never overwritten by a later reading. On the way back every value is checked:
//! what is not an address never becomes part of a command.

use vstd::prelude::*;

use crate::config::{is_resolver_address, ADAPTER_DNS_V4, ADAPTER_DNS_V6};
use crate::endpoints::Endpoints;
use crate::iptext::{ip_text, parse_ip};
use crate::netif::{copy_texts, Adapter, DnsState};
use crate::text::same_ignoring_case;
#[allow(unused_imports)]
use crate::addr::{Address, IpAddr, Ipv4Addr, Ipv6Addr};
#[allow(unused_imports)]
use crate::config::{built_in_v4, built_in_v6, v4_forms, v6_forms};
#[allow(unused_imports)]
use crate::endpoints::{
    all_gone, in_use, ips, known, law_known_addresses, law_nothing_is_forgotten, renewed,
    unique_all, Lists, MAX_RETIRED,
};
#[allow(unused_imports)]
use crate::iptext::{hexes, ip_form, ip_of, law_written_addresses_read_back, longest_run, run_at};
#[allow(unused_imports)]
use crate::netif::StateView;
#[allow(unused_imports)]
use crate::text::{alike, decimal, joined, lower, texts, texts_push};

verus! {

/// The recorded settings of one adapter.
#[derive(Debug)]
pub struct AdapterBackup {
    pub index: u32,
    pub ipv6_index: u32,
    pub guid: String,
    pub alias: String,
    pub v4: DnsState,
    pub v6: DnsState,
}

/// The recorded settings of one adapter, with texts as sequences.
#[verifier::ext_equal]
pub struct RowView {
    pub index: u32,
    pub ipv6_index: u32,
    pub guid: Seq<char>,
    pub alias: Seq<char>,
    pub v4: StateView,
    pub v6: StateView,
}

impl View for AdapterBackup {
    type V = RowView;

    open spec fn view(&self) -> RowView {
        RowView {
            index: self.index,
            ipv6_index: self.ipv6_index,
            guid: self.guid@,
            alias: self.alias@,
            v4: self.v4@,
            v6: self.v6@,
        }
    }
}

impl Clone for AdapterBackup {
    fn clone(&self) -> (r: AdapterBackup)
        ensures
            r@ == self@,
    {
        AdapterBackup {
            index: self.index,
            ipv6_index: self.ipv6_index,
            guid: self.guid.clone(),
            alias: self.alias.clone(),
            v4: self.v4.clone(),
            v6: self.v6.clone(),
        }
    }
}

/// The addresses among some texts, each in the one form in which it is written.
pub open spec fn addresses_among(s: Seq<Seq<char>>) -> Seq<Seq<char>>
    decreases s.len(),
{
    if s.len() == 0 {
        Seq::empty()
    } else {
        match ip_of(s.last()) {
            Some(ip) => addresses_among(s.drop_last()).push(ip_form(ip)),
            None => addresses_among(s.drop_last()),
        }
    }
}

/// What is not an address among some texts, with the family in front.
pub open spec fn others_among(s: Seq<Seq<char>>, family: Seq<char>) -> Seq<Seq<char>>
    decreases s.len(),
{
    if s.len() == 0 {
        Seq::empty()
    } else {
        match ip_of(s.last()) {
            Some(_) => others_among(s.drop_last(), family),
            None => others_among(s.drop_last(), family).push(family + ": "@ + s.last()),
        }
    }
}

/// A setting with nothing but addresses in it.
pub open spec fn clean_state(s: StateView) -> StateView {
    match s {
        StateView::Dhcp => StateView::Dhcp,
        StateView::Static(list) => StateView::Static(addresses_among(list)),
    }
}

/// What a setting held that was no address.
pub open spec fn dropped_from(s: StateView, family: Seq<char>) -> Seq<Seq<char>> {
    match s {
        StateView::Dhcp => Seq::empty(),
        StateView::Static(list) => others_among(list, family),
    }
}

fn clean(state: &DnsState, family: &str, dropped: &mut Vec<String>) -> (r: DnsState)
    ensures
        r@ == clean_state(state@),
        texts(final(dropped)@) == texts(old(dropped)@) + dropped_from(state@, family@),
{
    broadcast use texts_push;

    let list: &Vec<String> = match state {
        DnsState::Dhcp => {
            assert(texts(dropped@) =~= texts(dropped@) + Seq::<Seq<char>>::empty());
            return DnsState::Dhcp;
        },
        DnsState::Static(list) => list,
    };
    let ghost all = texts(list@);
    let ghost start = texts(dropped@);
    let mut out: Vec<String> = Vec::new();
    let mut i: usize = 0;
    assert(texts(out@) =~= addresses_among(all.take(0)));
    assert(texts(dropped@) =~= start + others_among(all.take(0), family@));
    while i < list.len()
        invariant
            i <= list@.len(),
            all == texts(list@),
            texts(out@) == addresses_among(all.take(i as int)),
            texts(dropped@) == start + others_among(all.take(i as int), family@),
        decreases list@.len() - i,
    {
        assert(all.take(i + 1).drop_last() =~= all.take(i as int));
        assert(all[i as int] == list@[i as int]@);
        match parse_ip(list[i].as_str()) {
            Some(ip) => {
                out.push(ip_text(&ip));
            },
            None => {
                let mut t = family.to_owned();
                t.append(": ");
                t.append(list[i].as_str());
                let ghost before = dropped@;
                dropped.push(t);
                proof {
                    texts_push(before, t);
                    assert(all.take(i + 1).last() == all[i as int]);
                    assert(others_among(all.take(i + 1), family@) == others_among(
                        all.take(i as int),
                        family@,
                    ).push(t@));
                    assert(texts(dropped@) =~= start + others_among(all.take(i + 1), family@));
                }
            },
        }
        i += 1;
    }
    assert(all.take(i as int) =~= all);
    DnsState::Static(out)
}

impl AdapterBackup {
    /// The record with nothing but addresses in it, each in its written form, and what had to be
    /// dropped for that.
    pub fn sanitised(&self) -> (r: (AdapterBackup, Vec<String>))
        ensures
            r.0@ == (RowView {
                v4: clean_state(self@.v4),
                v6: clean_state(self@.v6),
                ..self@
            }),
            texts(r.1@) == dropped_from(self@.v4, "IPv4"@) + dropped_from(self@.v6, "IPv6"@),
    {
        let mut dropped: Vec<String> = Vec::new();
        assert(texts(dropped@) =~= Seq::<Seq<char>>::empty());
        let v4: DnsState = clean(&self.v4, "IPv4", &mut dropped);
        let v6: DnsState = clean(&self.v6, "IPv6", &mut dropped);
        assert(texts(dropped@) =~= dropped_from(self@.v4, "IPv4"@) + dropped_from(
            self@.v6,
            "IPv6"@,
        ));
        (
            AdapterBackup {
                index: self.index,
                ipv6_index: self.ipv6_index,
                guid: self.guid.clone(),
                alias: self.alias.clone(),
                v4,
                v6,
            },
            dropped,
        )
    }
}

proof fn lemma_addresses_among(s: Seq<Seq<char>>, family: Seq<char>)
    ensures
        forall|i: int|
            0 <= i < addresses_among(s).len() ==> ip_of(#[trigger] addresses_among(s)[i]) is Some
                && ip_form(ip_of(addresses_among(s)[i])->0) == addresses_among(s)[i],
        addresses_among(s).len() + others_among(s, family).len() == s.len(),
    decreases s.len(),
{
    if s.len() > 0 {
        lemma_addresses_among(s.drop_last(), family);
        if let Some(ip) = ip_of(s.last()) {
            law_written_addresses_read_back(ip);
        }
        let before = addresses_among(s.drop_last());
        let a = addresses_among(s);
        assert forall|i: int| 0 <= i < a.len() implies ip_of(#[trigger] a[i]) is Some && ip_form(
            ip_of(a[i])->0,
        ) == a[i] by {
            if i < before.len() {
                assert(a[i] == before[i]);
            }
        }
    }
}

proof fn lemma_among_is_filtered(s: Seq<Seq<char>>, family: Seq<char>)
    ensures
        addresses_among(s) == s.filter(|t: Seq<char>| ip_of(t) is Some).map_values(
            |t: Seq<char>| ip_form(ip_of(t)->0),
        ),
        others_among(s, family) == s.filter(|t: Seq<char>| ip_of(t) is None).map_values(
            |t: Seq<char>| family + ": "@ + t,
        ),
    decreases s.len(),
{
    reveal(Seq::filter);
    let good = |t: Seq<char>| ip_of(t) is Some;
    let bad = |t: Seq<char>| ip_of(t) is None;
    let form = |t: Seq<char>| ip_form(ip_of(t)->0);
    let name = |t: Seq<char>| family + ": "@ + t;
    if s.len() > 0 {
        let front = s.drop_last();
        lemma_among_is_filtered(front, family);
        assert(front.filter(good).push(s.last()).map_values(form) =~= front.filter(
            good,
        ).map_values(form).push(form(s.last())));
        assert(front.filter(bad).push(s.last()).map_values(name) =~= front.filter(bad).map_values(
            name,
        ).push(name(s.last())));
    } else {
        assert(addresses_among(s) =~= s.filter(good).map_values(form));
        assert(others_among(s, family) =~= s.filter(bad).map_values(name));
    }
}

proof fn lemma_clean_list(s: Seq<Seq<char>>, family: Seq<char>)
    requires
        forall|i: int|
            0 <= i < s.len() ==> ip_of(#[trigger] s[i]) is Some && ip_form(ip_of(s[i])->0) == s[i],
    ensures
        addresses_among(s) == s,
        others_among(s, family).len() == 0,
    decreases s.len(),
{
    if s.len() > 0 {
        let front = s.drop_last();
        assert forall|i: int| 0 <= i < front.len() implies ip_of(#[trigger] front[i]) is Some
            && ip_form(ip_of(front[i])->0) == front[i] by {
            assert(front[i] == s[i]);
        }
        lemma_clean_list(front, family);
        assert(s[s.len() - 1] == s.last());
        assert(front.push(s.last()) =~= s);
    } else {
        assert(addresses_among(s) =~= s);
    }
}

/// A checked setting holds the addresses of the old one, in their order and their written form; what
/// it does not hold of the old one is named, in its order too; and checking it again changes and drops
/// nothing.
pub proof fn law_checked_settings_hold_addresses(s: StateView, family: Seq<char>)
    ensures
        clean_state(clean_state(s)) == clean_state(s),
        dropped_from(clean_state(s), family).len() == 0,
        s matches StateView::Static(list) ==> {
            &&& clean_state(s) is Static
            &&& clean_state(s)->Static_0 == list.filter(
                |t: Seq<char>| ip_of(t) is Some,
            ).map_values(|t: Seq<char>| ip_form(ip_of(t)->0))
            &&& dropped_from(s, family) == list.filter(|t: Seq<char>| ip_of(t) is None).map_values(
                |t: Seq<char>| family + ": "@ + t,
            )
            &&& clean_state(s)->Static_0.len() + dropped_from(s, family).len() == list.len()
            &&& forall|i: int|
                0 <= i < clean_state(s)->Static_0.len() ==> ip_of(
                    #[trigger] clean_state(s)->Static_0[i],
                ) is Some && ip_form(ip_of(clean_state(s)->Static_0[i])->0)
                    == clean_state(s)->Static_0[i]
        },
{
    if let StateView::Static(list) = s {
        lemma_addresses_among(list, family);
        lemma_among_is_filtered(list, family);
        lemma_clean_list(addresses_among(list), family);
    }
}

/// The address on this machine that adapters are pointed at, of the first family.
pub open spec fn local_v4() -> IpAddr {
    IpAddr::V4(Ipv4Addr { a: 127, b: 0, c: 0, d: 1 })
}

/// The address on this machine that adapters are pointed at, of the second family.
pub open spec fn local_v6() -> IpAddr {
    IpAddr::V6(Ipv6Addr { s0: 0, s1: 0, s2: 0, s3: 0, s4: 0, s5: 0, s6: 0, s7: 1 })
}

/// Whether a server is one that this program writes into adapters, however it is spelled: one of the
/// two on this machine, or an address that is or was the resolver's.
pub open spec fn ours(server: Seq<char>, l: Lists) -> bool {
    ip_of(server) matches Some(ip) && (ip == local_v4() || ip == local_v6() || known(l).contains(
        ip,
    ))
}

/// Whether an address is one of the two on this machine that adapters are pointed at.
fn is_local(ip: &IpAddr) -> (r: bool)
    ensures
        r == (*ip == local_v4() || *ip == local_v6()),
{
    match ip {
        IpAddr::V4(v4) => v4.a == 127 && v4.b == 0 && v4.c == 0 && v4.d == 1,
        IpAddr::V6(v6) => v6.s0 == 0 && v6.s1 == 0 && v6.s2 == 0 && v6.s3 == 0 && v6.s4 == 0
            && v6.s5 == 0 && v6.s6 == 0 && v6.s7 == 1,
    }
}

/// Whether a server is one that this program writes into adapters. It is compared as an address, not
/// as a text.
pub fn is_ours(server: &str, e: &Endpoints) -> (r: bool)
    ensures
        r == ours(server@, e.lists()),
{
    match parse_ip(server) {
        Some(ip) => is_local(&ip) || is_resolver_address(e, &ip),
        None => false,
    }
}

/// The texts that are written into adapters for this machine's own resolver read as the two addresses
/// on this machine.
proof fn lemma_local_texts()
    ensures
        ip_of(ADAPTER_DNS_V4@) == Some(local_v4()),
        ip_of(ADAPTER_DNS_V6@) == Some(local_v6()),
{
    reveal_strlit("127.0.0.1");
    reveal_strlit("::1");
    reveal_strlit("::");
    reveal_strlit(":");
    let v6 = Ipv6Addr { s0: 0, s1: 0, s2: 0, s3: 0, s4: 0, s5: 0, s6: 0, s7: 1 };
    let g = v6.segments();
    law_written_addresses_read_back(local_v4());
    law_written_addresses_read_back(local_v6());
    assert(decimal(127) =~= seq!['1', '2', '7']) by {
        reveal_with_fuel(decimal, 4);
    }
    assert(ip_form(local_v4()) =~= "127.0.0.1"@);
    assert(longest_run(g, 0) == (0int, 7int)) by {
        reveal_with_fuel(run_at, 9);
        reveal_with_fuel(longest_run, 9);
    }
    assert(joined(hexes(g.take(0)), ":"@) =~= Seq::<char>::empty());
    assert(hexes(g.skip(7)) =~= seq![seq!['1']]);
    assert(ip_form(local_v6()) =~= "::1"@);
}

/// Whether every server of a list is one that this program writes.
pub open spec fn all_ours(list: Seq<Seq<char>>, l: Lists) -> bool {
    list.len() > 0 && forall|i: int| 0 <= i < list.len() ==> ours(#[trigger] list[i], l)
}

/// A setting as it may be recorded: a list of nothing but this program's own servers is no previous
/// setting, and stands for one that is obtained automatically.
pub open spec fn recordable(s: StateView, l: Lists) -> StateView {
    match s {
        StateView::Static(list) => if all_ours(list, l) {
            StateView::Dhcp
        } else {
            s
        },
        StateView::Dhcp => s,
    }
}

/// Refuses to record this program's own servers as somebody's previous setting. A list that holds
/// another server besides is somebody's own.
pub fn not_ours(state: DnsState, e: &Endpoints) -> (r: DnsState)
    ensures
        r@ == recordable(state@, e.lists()),
{
    if let DnsState::Static(list) = &state {
        let mut i: usize = 0;
        while i < list.len()
            invariant
                i <= list@.len(),
                state@ == StateView::Static(texts(list@)),
                forall|k: int| 0 <= k < i ==> ours(#[trigger] texts(list@)[k], e.lists()),
            decreases list@.len() - i,
        {
            if !is_ours(list[i].as_str(), e) {
                assert(!ours(texts(list@)[i as int], e.lists()));
                assert(!all_ours(texts(list@), e.lists()));
                return state;
            }
            i += 1;
        }
        if list.len() > 0 {
            assert(all_ours(texts(list@), e.lists()));
            return DnsState::Dhcp;
        }
    }
    state
}

/// An adapter and the settings that were read of it.
#[derive(Debug)]
pub struct Reading {
    pub adapter: Adapter,
    pub v4: DnsState,
    pub v6: DnsState,
}

/// What was recorded of the machine.
#[derive(Debug)]
pub struct DnsBackup {
    /// When it was recorded, in seconds.
    pub created_unix: u64,
    pub adapters: Vec<AdapterBackup>,
    /// The servers whose DNS-over-HTTPS template this program registered, and has to remove again.
    pub doh_added: Vec<String>,
}

/// The records of a list.
pub open spec fn rows(v: Seq<AdapterBackup>) -> Seq<RowView> {
    Seq::new(v.len(), |i: int| v[i]@)
}

/// The record of a reading.
pub open spec fn row_of(r: Reading, l: Lists) -> RowView {
    RowView {
        index: r.adapter.index,
        ipv6_index: r.adapter.ipv6_index,
        guid: r.adapter.guid@,
        alias: r.adapter.alias@,
        v4: recordable(r.v4@, l),
        v6: recordable(r.v6@, l),
    }
}

/// The records of readings.
pub open spec fn captured(readings: Seq<Reading>, l: Lists) -> Seq<RowView> {
    Seq::new(readings.len(), |i: int| row_of(readings[i], l))
}

/// The first record of an adapter, from the record with number `i` on.
pub open spec fn first_row(rs: Seq<RowView>, guid: Seq<char>, i: int) -> Option<RowView>
    decreases rs.len() - i,
{
    if i < 0 || i >= rs.len() {
        None
    } else if alike(rs[i].guid, guid) {
        Some(rs[i])
    } else {
        first_row(rs, guid, i + 1)
    }
}

/// A fresh record with the settings of the earlier record of the same adapter, if there is one.
pub open spec fn with_earlier(fresh: RowView, earlier: Seq<RowView>) -> RowView {
    match first_row(earlier, fresh.guid, 0) {
        Some(old) => RowView { v4: old.v4, v6: old.v6, ..fresh },
        None => fresh,
    }
}

/// Fresh records with the settings of earlier ones.
pub open spec fn all_with_earlier(fresh: Seq<RowView>, earlier: Seq<RowView>) -> Seq<RowView> {
    Seq::new(fresh.len(), |i: int| with_earlier(fresh[i], earlier))
}

/// The records with those earlier ones behind them whose adapters are not among them.
pub open spec fn with_absent(rs: Seq<RowView>, earlier: Seq<RowView>) -> Seq<RowView>
    decreases earlier.len(),
{
    if earlier.len() == 0 {
        rs
    } else {
        let before = with_absent(rs, earlier.drop_last());
        if first_row(before, earlier.last().guid, 0) is Some {
            before
        } else {
            before.push(earlier.last())
        }
    }
}

/// What is recorded when there is an earlier record.
pub open spec fn preserved(fresh: Seq<RowView>, earlier: Seq<RowView>) -> Seq<RowView> {
    with_absent(all_with_earlier(fresh, earlier), earlier)
}

fn find_row(rs: &Vec<AdapterBackup>, guid: &str) -> (r: Option<usize>)
    ensures
        match r {
            Some(i) => i < rs@.len() && first_row(rows(rs@), guid@, 0) == Some(rs@[i as int]@),
            None => first_row(rows(rs@), guid@, 0) is None,
        },
{
    let mut i: usize = 0;
    while i < rs.len()
        invariant
            i <= rs@.len(),
            first_row(rows(rs@), guid@, i as int) == first_row(rows(rs@), guid@, 0),
        decreases rs@.len() - i,
    {
        if same_ignoring_case(rs[i].guid.as_str(), guid) {
            return Some(i);
        }
        i += 1;
    }
    None
}

impl DnsBackup {
    /// Records the settings that were read.
    pub fn capture(readings: &Vec<Reading>, e: &Endpoints, now: u64) -> (r: DnsBackup)
        ensures
            rows(r.adapters@) == captured(readings@, e.lists()),
            r.created_unix == now,
            r.doh_added@.len() == 0,
    {
        let ghost want = captured(readings@, e.lists());
        let mut out: Vec<AdapterBackup> = Vec::new();
        let mut i: usize = 0;
        while i < readings.len()
            invariant
                i <= readings@.len(),
                want == captured(readings@, e.lists()),
                rows(out@) == want.take(i as int),
            decreases readings@.len() - i,
        {
            let a: &Adapter = &readings[i].adapter;
            let row = AdapterBackup {
                index: a.index,
                ipv6_index: a.ipv6_index,
                guid: a.guid.clone(),
                alias: a.alias.clone(),
                v4: not_ours(readings[i].v4.clone(), e),
                v6: not_ours(readings[i].v6.clone(), e),
            };
            assert(rows(out@.push(row)) =~= rows(out@).push(row@));
            out.push(row);
            i += 1;
            assert(want.take(i as int) =~= want.take(i - 1).push(want[i - 1]));
        }
        assert(want.take(i as int) =~= want);
        DnsBackup { created_unix: now, adapters: out, doh_added: Vec::new() }
    }

    /// Records the settings that were read, but never over what an earlier run recorded: the earlier
    /// settings of an adapter win over the reading, the records of absent adapters stay, and so do
    /// the time of the earlier record and the templates that it owes.
    pub fn capture_preserving(
        readings: &Vec<Reading>,
        previous: Option<DnsBackup>,
        e: &Endpoints,
        now: u64,
    ) -> (r: DnsBackup)
        ensures
            match previous {
                None => rows(r.adapters@) == captured(readings@, e.lists()) && r.created_unix
                    == now && r.doh_added@.len() == 0,
                Some(p) => rows(r.adapters@) == preserved(
                    captured(readings@, e.lists()),
                    rows(p.adapters@),
                ) && r.created_unix == p.created_unix && r.doh_added@ == p.doh_added@,
            },
    {
        let fresh: DnsBackup = DnsBackup::capture(readings, e, now);
        let previous: DnsBackup = match previous {
            Some(p) => p,
            None => return fresh,
        };
        let ghost first = rows(fresh.adapters@);
        let ghost earlier = rows(previous.adapters@);
        let ghost renewed_rows = all_with_earlier(first, earlier);
        let mut out: Vec<AdapterBackup> = Vec::new();
        let mut i: usize = 0;
        while i < fresh.adapters.len()
            invariant
                i <= fresh.adapters@.len(),
                first == rows(fresh.adapters@),
                earlier == rows(previous.adapters@),
                renewed_rows == all_with_earlier(first, earlier),
                rows(out@) == renewed_rows.take(i as int),
            decreases fresh.adapters@.len() - i,
        {
            let mut row: AdapterBackup = fresh.adapters[i].clone();
            if let Some(k) = find_row(&previous.adapters, fresh.adapters[i].guid.as_str()) {
                row.v4 = previous.adapters[k].v4.clone();
                row.v6 = previous.adapters[k].v6.clone();
            }
            assert(row@ == with_earlier(first[i as int], earlier));
            assert(rows(out@.push(row)) =~= rows(out@).push(row@));
            out.push(row);
            i += 1;
            assert(renewed_rows.take(i as int) =~= renewed_rows.take(i - 1).push(
                renewed_rows[i - 1],
            ));
        }
        assert(renewed_rows.take(i as int) =~= renewed_rows);
        let mut j: usize = 0;
        assert(earlier.take(0) =~= Seq::<RowView>::empty());
        while j < previous.adapters.len()
            invariant
                j <= previous.adapters@.len(),
                earlier == rows(previous.adapters@),
                rows(out@) == with_absent(renewed_rows, earlier.take(j as int)),
            decreases previous.adapters@.len() - j,
        {
            assert(earlier.take(j + 1).drop_last() =~= earlier.take(j as int));
            if find_row(&out, previous.adapters[j].guid.as_str()).is_none() {
                let row: AdapterBackup = previous.adapters[j].clone();
                assert(rows(out@.push(row)) =~= rows(out@).push(row@));
                out.push(row);
            }
            j += 1;
        }
        assert(earlier.take(j as int) =~= earlier);
        DnsBackup {
            created_unix: previous.created_unix,
            adapters: out,
            doh_added: copy_texts(&previous.doh_added),
        }
    }
}

proof fn lemma_first_row(rs: Seq<RowView>, guid: Seq<char>, i: int)
    requires
        0 <= i,
    ensures
        first_row(rs, guid, i) matches Some(r) ==> alike(r.guid, guid) && rs.contains(r),
        first_row(rs, guid, i) is None ==> forall|k: int|
            i <= k < rs.len() ==> !alike((#[trigger] rs[k]).guid, guid),
    decreases rs.len() - i,
{
    if i < rs.len() && !alike(rs[i].guid, guid) {
        lemma_first_row(rs, guid, i + 1);
    }
}

proof fn lemma_first_row_found(rs: Seq<RowView>, guid: Seq<char>, i: int, k: int)
    requires
        0 <= i <= k < rs.len(),
        alike(rs[k].guid, guid),
    ensures
        first_row(rs, guid, i) is Some,
    decreases k - i,
{
    if i < k && !alike(rs[i].guid, guid) {
        lemma_first_row_found(rs, guid, i + 1, k);
    }
}

proof fn lemma_first_row_alike(rs: Seq<RowView>, a: Seq<char>, b: Seq<char>, i: int)
    requires
        alike(a, b),
        0 <= i,
    ensures
        first_row(rs, a, i) == first_row(rs, b, i),
    decreases rs.len() - i,
{
    if i < rs.len() {
        lemma_alike(rs[i].guid, a, b);
        lemma_first_row_alike(rs, a, b, i + 1);
    }
}

proof fn lemma_alike(x: Seq<char>, a: Seq<char>, b: Seq<char>)
    requires
        alike(a, b),
    ensures
        alike(x, a) <==> alike(x, b),
{
    assert forall|i: int| 0 <= i < a.len() implies lower(#[trigger] b[i]) == lower(a[i]) by {
        assert(lower(a[i]) == lower(b[i]));
    }
    if alike(x, a) {
        assert forall|i: int| 0 <= i < x.len() implies lower(#[trigger] x[i]) == lower(b[i]) by {
            assert(lower(x[i]) == lower(a[i]));
            assert(lower(a[i]) == lower(b[i]));
        }
    }
    if alike(x, b) {
        assert forall|i: int| 0 <= i < x.len() implies lower(#[trigger] x[i]) == lower(a[i]) by {
            assert(lower(x[i]) == lower(b[i]));
            assert(lower(b[i]) == lower(a[i]));
        }
    }
}

/// Whether the settings in a record are those of the first earlier record of its adapter.
pub open spec fn keeps_earlier(r: RowView, earlier: Seq<RowView>) -> bool {
    first_row(earlier, r.guid, 0) matches Some(old) ==> r.v4 == old.v4 && r.v6 == old.v6
}

proof fn lemma_with_absent(rs: Seq<RowView>, all: Seq<RowView>, n: int)
    requires
        0 <= n <= all.len(),
        forall|i: int| 0 <= i < rs.len() ==> keeps_earlier(#[trigger] rs[i], all),
    ensures
        ({
            let out = with_absent(rs, all.take(n));
            &&& rs.len() <= out.len()
            &&& out.take(rs.len() as int) == rs
            &&& forall|i: int| 0 <= i < out.len() ==> keeps_earlier(#[trigger] out[i], all)
            &&& forall|k: int|
                0 <= k < n ==> first_row(out, (#[trigger] all[k]).guid, 0) is Some
            &&& forall|i: int| rs.len() <= i < out.len() ==> all.contains(#[trigger] out[i])
        }),
    decreases n,
{
    let out = with_absent(rs, all.take(n));
    if n == 0 {
        assert(all.take(0) =~= Seq::<RowView>::empty());
        assert(out.take(rs.len() as int) =~= rs);
    } else {
        let last = all[n - 1];
        assert(all.take(n).drop_last() =~= all.take(n - 1));
        lemma_with_absent(rs, all, n - 1);
        let before = with_absent(rs, all.take(n - 1));
        lemma_first_row(before, last.guid, 0);
        assert(alike(last.guid, last.guid));
        if first_row(before, last.guid, 0) is None {
            assert(out == before.push(last));
            assert(out.take(rs.len() as int) =~= before.take(rs.len() as int));
            // No record before this one is of the same adapter, so it is the first of its own.
            assert(keeps_earlier(last, all)) by {
                lemma_first_row(all, last.guid, 0);
                lemma_first_is(all, last.guid, n - 1, before);
            }
            assert forall|i: int| 0 <= i < out.len() implies keeps_earlier(#[trigger] out[i], all) by {
                if i < before.len() {
                    assert(out[i] == before[i]);
                }
            }
            assert forall|i: int| rs.len() <= i < out.len() implies all.contains(
                #[trigger] out[i],
            ) by {
                if i < before.len() {
                    assert(out[i] == before[i]);
                } else {
                    assert(out[i] == all[n - 1]);
                }
            }
        }
        assert forall|k: int| 0 <= k < n implies first_row(out, (#[trigger] all[k]).guid, 0)
            is Some by {
            if k < n - 1 {
                lemma_first_row(before, all[k].guid, 0);
                let r = first_row(before, all[k].guid, 0)->0;
                let j = choose|j: int| 0 <= j < before.len() && before[j] == r;
                assert(out[j] == r);
                lemma_first_row_found(out, all[k].guid, 0, j);
            } else if first_row(before, last.guid, 0) is None {
                lemma_first_row_found(out, last.guid, 0, out.len() - 1);
            }
        }
    }
}

/// The first record of an adapter is the one with number `at`, if those before it are all of adapters
/// that `before` covers and that adapter is not one of them.
proof fn lemma_first_is(all: Seq<RowView>, guid: Seq<char>, at: int, before: Seq<RowView>)
    requires
        0 <= at < all.len(),
        all[at].guid == guid,
        first_row(before, guid, 0) is None,
        forall|k: int| 0 <= k < at ==> first_row(before, (#[trigger] all[k]).guid, 0) is Some,
    ensures
        first_row(all, guid, 0) == Some(all[at]),
{
    assert(alike(guid, guid));
    assert forall|k: int| 0 <= k < at implies !alike((#[trigger] all[k]).guid, guid) by {
        if alike(all[k].guid, guid) {
            lemma_first_row_alike(before, all[k].guid, guid, 0);
        }
    }
    lemma_first_row_at(all, guid, 0, at);
}

proof fn lemma_first_row_at(rs: Seq<RowView>, guid: Seq<char>, i: int, at: int)
    requires
        0 <= i <= at < rs.len(),
        alike(rs[at].guid, guid),
        forall|k: int| i <= k < at ==> !alike((#[trigger] rs[k]).guid, guid),
    ensures
        first_row(rs, guid, i) == Some(rs[at]),
    decreases at - i,
{
    if i < at {
        lemma_first_row_at(rs, guid, i + 1, at);
    }
}

/// An earlier record is never overwritten and never lost: every record has the settings of the first
/// earlier record of its adapter, if there is one, and every adapter with an earlier record still
/// has one. The fresh records come first and keep everything else, and what stands behind them are
/// earlier records as they were.
pub proof fn law_earlier_records_win(fresh: Seq<RowView>, earlier: Seq<RowView>)
    ensures
        forall|i: int|
            0 <= i < preserved(fresh, earlier).len() ==> keeps_earlier(
                #[trigger] preserved(fresh, earlier)[i],
                earlier,
            ),
        forall|k: int|
            0 <= k < earlier.len() ==> first_row(
                preserved(fresh, earlier),
                (#[trigger] earlier[k]).guid,
                0,
            ) is Some,
        fresh.len() <= preserved(fresh, earlier).len(),
        forall|i: int|
            0 <= i < fresh.len() ==> #[trigger] preserved(fresh, earlier)[i] == with_earlier(
                fresh[i],
                earlier,
            ) && preserved(fresh, earlier)[i] == (RowView {
                v4: preserved(fresh, earlier)[i].v4,
                v6: preserved(fresh, earlier)[i].v6,
                ..fresh[i]
            }),
        forall|i: int|
            fresh.len() <= i < preserved(fresh, earlier).len() ==> earlier.contains(
                #[trigger] preserved(fresh, earlier)[i],
            ),
{
    let now = all_with_earlier(fresh, earlier);
    assert(earlier.take(earlier.len() as int) =~= earlier);
    lemma_with_absent(now, earlier, earlier.len() as int);
    let out = preserved(fresh, earlier);
    assert forall|i: int| 0 <= i < fresh.len() implies #[trigger] out[i] == with_earlier(
        fresh[i],
        earlier,
    ) by {
        assert(out.take(now.len() as int)[i] == now[i]);
    }
}

/// A record that is made once more, however the machine looks by then, holds the settings that the
/// first one held.
pub proof fn law_recording_again_changes_nothing(
    fresh: Seq<RowView>,
    later: Seq<RowView>,
    i: int,
)
    requires
        0 <= i < fresh.len(),
        first_row(fresh, fresh[i].guid, 0) == Some(fresh[i]),
    ensures
        first_row(preserved(later, fresh), fresh[i].guid, 0) is Some,
        first_row(preserved(later, fresh), fresh[i].guid, 0)->0.v4 == fresh[i].v4,
        first_row(preserved(later, fresh), fresh[i].guid, 0)->0.v6 == fresh[i].v6,
{
    law_earlier_records_win(later, fresh);
    let out = preserved(later, fresh);
    let guid = fresh[i].guid;
    assert(first_row(out, fresh[i].guid, 0) is Some);
    lemma_first_row(out, guid, 0);
    let r = first_row(out, guid, 0)->0;
    let k = choose|k: int| 0 <= k < out.len() && out[k] == r;
    assert(keeps_earlier(out[k], fresh));
    lemma_first_row_alike(fresh, r.guid, guid, 0);
}

/// This program's own servers are never recorded as a previous setting.
pub proof fn law_own_servers_are_not_recorded(s: StateView, l: Lists)
    ensures
        !(recordable(s, l) matches StateView::Static(list) && all_ours(list, l)),
        !(s matches StateView::Static(list) && all_ours(list, l)) ==> recordable(s, l) == s,
{
}

/// What this program writes into adapters it takes for its own: the addresses in use, and the
/// built-in ones, whatever has been learned.
pub proof fn law_what_is_written_is_ours(l: Lists)
    ensures
        all_ours(v4_forms(built_in_v4()), l),
        all_ours(v6_forms(built_in_v6()), l),
        all_ours(v4_forms(in_use(l.v4, built_in_v4())), l),
        all_ours(v6_forms(in_use(l.v6, built_in_v6())), l),
        ours(ADAPTER_DNS_V4@, l),
        ours(ADAPTER_DNS_V6@, l),
{
    law_known_addresses(l);
    lemma_local_texts();
    assert forall|v: Seq<Ipv4Addr>, i: int|
        (v == built_in_v4() || v == l.v4) && 0 <= i < v.len() implies ours(
        #[trigger] v4_forms(v)[i],
        l,
    ) by {
        law_written_addresses_read_back(IpAddr::V4(v[i]));
        assert(ips(v)[i] == IpAddr::V4(v[i]));
        assert(ips(v).contains(IpAddr::V4(v[i])));
        assert(known(l).contains(IpAddr::V4(v[i])));
    }
    assert forall|v: Seq<Ipv6Addr>, i: int|
        (v == built_in_v6() || v == l.v6) && 0 <= i < v.len() implies ours(
        #[trigger] v6_forms(v)[i],
        l,
    ) by {
        law_written_addresses_read_back(IpAddr::V6(v[i]));
        assert(ips(v)[i] == IpAddr::V6(v[i]));
        assert(ips(v).contains(IpAddr::V6(v[i])));
        assert(known(l).contains(IpAddr::V6(v[i])));
    }
}

/// A server that is this program's own stays so when the lists are replaced, unless it is one of the
/// oldest retired addresses, of which there had become too many.
pub proof fn law_ours_stays_ours(
    server: Seq<char>,
    l: Lists,
    v4: Seq<Ipv4Addr>,
    v6: Seq<Ipv6Addr>,
    gone: Seq<IpAddr>,
)
    requires
        ours(server, l),
        unique_all(l.retired, all_gone(l, v4, v6, gone)).len() <= MAX_RETIRED,
    ensures
        ours(server, renewed(l, v4, v6, gone)),
{
    if let Some(ip) = ip_of(server) {
        if known(l).contains(ip) {
            law_nothing_is_forgotten(l, v4, v6, gone, ip);
        }
    }
}

proof fn lemma_first_row_is(rs: Seq<RowView>, guid: Seq<char>, i: int, k: int)
    requires
        0 <= i <= k <= rs.len(),
        forall|j: int| i <= j < k ==> !alike((#[trigger] rs[j]).guid, guid),
    ensures
        k < rs.len() && alike(rs[k].guid, guid) ==> first_row(rs, guid, i) == Some(rs[k]),
        k == rs.len() ==> first_row(rs, guid, i) is None,
    decreases k - i,
{
    if i < k {
        lemma_first_row_is(rs, guid, i + 1, k);
    }
}

/// The record of an adapter is the first whose identifier is the same but for case; there is none
/// exactly where no record has that identifier.
pub proof fn law_records_are_found_by_identifier(rs: Seq<RowView>, guid: Seq<char>, k: int)
    ensures
        0 <= k < rs.len() && alike(rs[k].guid, guid) && (forall|j: int|
            0 <= j < k ==> !alike((#[trigger] rs[j]).guid, guid)) ==> first_row(rs, guid, 0)
            == Some(rs[k]),
        first_row(rs, guid, 0) is None <==> forall|j: int|
            0 <= j < rs.len() ==> !alike((#[trigger] rs[j]).guid, guid),
    decreases rs.len(),
{
    if 0 <= k < rs.len() && forall|j: int| 0 <= j < k ==> !alike((#[trigger] rs[j]).guid, guid) {
        lemma_first_row_is(rs, guid, 0, k);
    }
    if forall|j: int| 0 <= j < rs.len() ==> !alike((#[trigger] rs[j]).guid, guid) {
        lemma_first_row_is(rs, guid, 0, rs.len() as int);
    } else {
        let j = choose|j: int| 0 <= j < rs.len() && alike((#[trigger] rs[j]).guid, guid);
        lemma_found_by(rs, guid, 0, j);
    }
}

proof fn lemma_found_by(rs: Seq<RowView>, guid: Seq<char>, i: int, j: int)
    requires
        0 <= i <= j < rs.len(),
        alike(rs[j].guid, guid),
    ensures
        first_row(rs, guid, i) is Some,
    decreases j - i,
{
    if i < j && !alike(rs[i].guid, guid) {
        lemma_found_by(rs, guid, i + 1, j);
    }
}

/// A fresh record of an adapter that was recorded before keeps its own index, identifier and name, and
/// takes both settings of the first earlier record with its identifier; one of an adapter that was
/// never recorded stays as it is.
pub proof fn law_fresh_records_take_earlier_settings(
    fresh: Seq<RowView>,
    earlier: Seq<RowView>,
    i: int,
    k: int,
)
    requires
        0 <= i < fresh.len(),
        0 <= k <= earlier.len(),
        forall|j: int| 0 <= j < k ==> !alike((#[trigger] earlier[j]).guid, fresh[i].guid),
        k < earlier.len() ==> alike(earlier[k].guid, fresh[i].guid),
    ensures
        fresh.len() <= preserved(fresh, earlier).len(),
        preserved(fresh, earlier)[i].index == fresh[i].index,
        preserved(fresh, earlier)[i].ipv6_index == fresh[i].ipv6_index,
        preserved(fresh, earlier)[i].guid == fresh[i].guid,
        preserved(fresh, earlier)[i].alias == fresh[i].alias,
        preserved(fresh, earlier)[i].v4 == (if k < earlier.len() {
            earlier[k].v4
        } else {
            fresh[i].v4
        }),
        preserved(fresh, earlier)[i].v6 == (if k < earlier.len() {
            earlier[k].v6
        } else {
            fresh[i].v6
        }),
{
    law_earlier_records_win(fresh, earlier);
    lemma_first_row_is(earlier, fresh[i].guid, 0, k);
    assert(preserved(fresh, earlier)[i] == with_earlier(fresh[i], earlier));
}

/// Behind the fresh records stand the earlier ones of adapters that are not there now, one after the
/// other and unchanged: each is added unless a record with its identifier is there by then.
pub proof fn law_absent_adapters_keep_their_record(
    fresh: Seq<RowView>,
    rs: Seq<RowView>,
    earlier: Seq<RowView>,
    x: RowView,
)
    ensures
        with_absent(rs, Seq::empty()) == rs,
        (exists|i: int|
            0 <= i < with_absent(rs, earlier).len() && alike(
                (#[trigger] with_absent(rs, earlier)[i]).guid,
                x.guid,
            )) ==> with_absent(rs, earlier.push(x)) == with_absent(rs, earlier),
        (forall|i: int|
            0 <= i < with_absent(rs, earlier).len() ==> !alike(
                (#[trigger] with_absent(rs, earlier)[i]).guid,
                x.guid,
            )) ==> with_absent(rs, earlier.push(x)) == with_absent(rs, earlier).push(x),
        preserved(fresh, earlier) == with_absent(
            preserved(fresh, earlier).take(fresh.len() as int),
            earlier,
        ),
        preserved(fresh, Seq::empty()) == fresh,
{
    let before = with_absent(rs, earlier);
    assert(earlier.push(x).drop_last() =~= earlier);
    law_records_are_found_by_identifier(before, x.guid, 0);
    law_earlier_records_win(fresh, earlier);
    assert(preserved(fresh, earlier).take(fresh.len() as int) =~= all_with_earlier(fresh, earlier));
    assert forall|i: int| 0 <= i < fresh.len() implies all_with_earlier(fresh, Seq::empty())[i]
        == fresh[i] by {
        lemma_first_row_is(Seq::empty(), fresh[i].guid, 0, 0);
    }
    assert(all_with_earlier(fresh, Seq::empty()) =~= fresh);
}

/// A server is this program's own where it is an address and that address is one of the two on this
/// machine, a built-in one, one that was learned or a retired one; however the address is spelled, and
/// nothing else.
pub proof fn law_whose_a_server_is(server: Seq<char>, ip: IpAddr, l: Lists)
    ensures
        ours(ip_form(ip), l) <==> ip == IpAddr::V4(Ipv4Addr { a: 127, b: 0, c: 0, d: 1 }) || ip
            == IpAddr::V6(Ipv6Addr { s0: 0, s1: 0, s2: 0, s3: 0, s4: 0, s5: 0, s6: 0, s7: 1 })
            || (ip matches IpAddr::V4(v4) && (built_in_v4().contains(v4) || l.v4.contains(v4)))
            || (ip matches IpAddr::V6(v6) && (built_in_v6().contains(v6) || l.v6.contains(v6)))
            || l.retired.contains(ip),
        ip_of(server) == Some(ip) ==> (ours(server, l) <==> ours(ip_form(ip), l)),
        ip_of(server) is None ==> !ours(server, l),
{
    law_written_addresses_read_back(ip);
    law_known_addresses(l);
    match ip {
        IpAddr::V4(v4) => {
            lemma_ips_of(built_in_v4(), v4);
            lemma_ips_of(l.v4, v4);
            lemma_no_v4_among(built_in_v6(), v4);
            lemma_no_v4_among(l.v6, v4);
        },
        IpAddr::V6(v6) => {
            lemma_ips_of(built_in_v6(), v6);
            lemma_ips_of(l.v6, v6);
            lemma_no_v6_among(built_in_v4(), v6);
            lemma_no_v6_among(l.v4, v6);
        },
    }
}

proof fn lemma_ips_of<T: Address>(s: Seq<T>, x: T)
    requires
        forall|y: T| #[trigger] y.ip() == x.ip() ==> y == x,
    ensures
        ips(s).contains(x.ip()) <==> s.contains(x),
{
    if s.contains(x) {
        let i = choose|i: int| 0 <= i < s.len() && s[i] == x;
        assert(ips(s)[i] == x.ip());
    }
    if ips(s).contains(x.ip()) {
        let i = choose|i: int| 0 <= i < ips(s).len() && ips(s)[i] == x.ip();
        assert(s[i].ip() == x.ip());
        assert(s[i] == x);
    }
}

proof fn lemma_no_v4_among(s: Seq<Ipv6Addr>, x: Ipv4Addr)
    ensures
        !ips(s).contains(IpAddr::V4(x)),
{
    assert forall|i: int| 0 <= i < ips(s).len() implies ips(s)[i] != IpAddr::V4(x) by {
        assert(ips(s)[i] == IpAddr::V6(s[i]));
    }
}

proof fn lemma_no_v6_among(s: Seq<Ipv4Addr>, x: Ipv6Addr)
    ensures
        !ips(s).contains(IpAddr::V6(x)),
{
    assert forall|i: int| 0 <= i < ips(s).len() implies ips(s)[i] != IpAddr::V6(x) by {
        assert(ips(s)[i] == IpAddr::V4(s[i]));
    }
}

/// A reading is recorded as it is, but for a list of servers of which every one is this program's own:
/// that is recorded as the automatic setting. One server of somebody else's keeps the whole list, and an
/// empty list stays one.
pub proof fn law_readings_are_recorded(list: Seq<Seq<char>>, l: Lists, r: Reading, i: int)
    ensures
        recordable(StateView::Dhcp, l) == StateView::Dhcp,
        list.len() == 0 ==> recordable(StateView::Static(list), l) == StateView::Static(list),
        0 <= i < list.len() && !ours(list[i], l) ==> recordable(StateView::Static(list), l)
            == StateView::Static(list),
        list.len() > 0 && (forall|j: int| 0 <= j < list.len() ==> ours(#[trigger] list[j], l))
            ==> recordable(StateView::Static(list), l) == StateView::Dhcp,
        row_of(r, l).index == r.adapter.index,
        row_of(r, l).ipv6_index == r.adapter.ipv6_index,
        row_of(r, l).guid == r.adapter.guid@,
        row_of(r, l).alias == r.adapter.alias@,
        row_of(r, l).v4 == recordable(r.v4@, l),
        row_of(r, l).v6 == recordable(r.v6@, l),
{
}

/// There is a record for each reading, in their order.
pub proof fn law_every_reading_is_recorded(readings: Seq<Reading>, l: Lists, i: int)
    requires
        0 <= i < readings.len(),
    ensures
        captured(readings, l).len() == readings.len(),
        captured(readings, l)[i].guid == readings[i].adapter.guid@,
        captured(readings, l)[i] == row_of(readings[i], l),
{
}

/// Checking keeps the automatic setting and drops nothing from it.
pub proof fn law_the_automatic_setting_is_kept(family: Seq<char>)
    ensures
        clean_state(StateView::Dhcp) == StateView::Dhcp,
        dropped_from(StateView::Dhcp, family).len() == 0,
{
}

} // verus!
