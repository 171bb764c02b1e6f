//! What to do when no known address answers any more: ask public resolvers where the resolver went,
//! and read the list that is published for this case.
//!
//! Nothing here uses the machine's own DNS, which at that moment is what is broken: the public
//! resolvers are reached by address, and the one name that has to be looked up is looked up there.

use vstd::prelude::*;

use crate::addr::{IpAddr, Ipv4Addr, Ipv6Addr, SocketAddr};
use crate::dnsmsg::{addresses, TYPE_A, TYPE_AAAA};
use crate::endpoints::{
    adopt_addresses, adopt_manifest, relax_cooldown, Adoption, Endpoints, DOH_PORT, FORMAT,
    MAX_ADDRS,
};
use crate::text::push_decimal;
#[allow(unused_imports)]
use crate::dnsmsg::answer_addresses;
#[allow(unused_imports)]
use crate::endpoints::{
    answer_adoption, answered, capped, published, publishes_news, relaxed, takes,
};
#[allow(unused_imports)]
use crate::stub::{v4_of_list, v6_of_list};
#[allow(unused_imports)]
use crate::text::{clipped, decimal};

verus! {

/// How many public resolvers there are to ask.
pub const PUBLIC_RESOLVERS: usize = 3;

/// How many places the list is published at.
pub const MANIFESTS: usize = 2;

/// A published list is a few hundred bytes. Anything that is more than this is none.
pub const MAX_BODY: usize = 65536;

/// The public resolvers, by address, in the order in which they are asked.
pub open spec fn resolver_url(i: int) -> Seq<char> {
    if i == 0 {
        "https://8.8.8.8/dns-query"@
    } else if i == 1 {
        "https://9.9.9.9/dns-query"@
    } else {
        "https://1.1.1.1/dns-query"@
    }
}

/// The host that a published list is on.
pub open spec fn manifest_host(i: int) -> Seq<char> {
    if i == 0 {
        "raw.githubusercontent.com"@
    } else {
        "dns-ai.ru"@
    }
}

/// Where a published list is.
pub open spec fn manifest_url(i: int) -> Seq<char> {
    if i == 0 {
        "https://raw.githubusercontent.com/confeden/DNS-AI/main/endpoints.json"@
    } else {
        "https://dns-ai.ru/endpoints.json"@
    }
}

/// A lookup through the public resolvers: how many were asked, whether one of them answered, and
/// the addresses that came of it.
#[derive(Debug)]
pub struct Lookup {
    pub asked: usize,
    pub reached: bool,
    pub found: Vec<IpAddr>,
}

impl Lookup {
    /// Nothing was asked yet.
    pub fn new() -> (r: Lookup)
        ensures
            r.asked == 0,
            !r.reached,
            r.found@.len() == 0,
    {
        Lookup { asked: 0, reached: false, found: Vec::new() }
    }

    /// The resolver to ask next: none where addresses were found, or all were asked.
    pub fn next(&self) -> (r: Option<&'static str>)
        ensures
            match r {
                Some(url) => self.found@.len() == 0 && self.asked < PUBLIC_RESOLVERS && url@
                    == resolver_url(self.asked as int),
                None => self.found@.len() > 0 || self.asked >= PUBLIC_RESOLVERS,
            },
    {
        if self.found.len() > 0 || self.asked >= PUBLIC_RESOLVERS {
            return None;
        }
        if self.asked == 0 {
            Some("https://8.8.8.8/dns-query")
        } else if self.asked == 1 {
            Some("https://9.9.9.9/dns-query")
        } else {
            Some("https://1.1.1.1/dns-query")
        }
    }

    /// The resolver that was asked answered, or did not.
    pub fn answered(&mut self, reply: Option<&[u8]>)
        requires
            old(self).found@.len() == 0,
            old(self).asked < PUBLIC_RESOLVERS,
        ensures
            final(self).asked == old(self).asked + 1,
            final(self).reached == (old(self).reached || reply is Some),
            final(self).found@ == (match reply {
                Some(m) => answer_addresses(m@),
                None => Seq::<IpAddr>::empty(),
            }),
    {
        self.asked = self.asked + 1;
        if let Some(m) = reply {
            self.reached = true;
            self.found = addresses(m);
        }
    }
}

/// How far a search has come.
#[derive(Clone, Copy, Debug, PartialEq, Eq, Structural)]
pub enum Stage {
    /// The resolver's IPv4 addresses are to be looked up.
    AskV4,
    /// Its IPv6 addresses are to be looked up.
    AskV6,
    /// A published list is to be fetched.
    Fetch(usize),
    Over,
}

/// What a search needs next.
#[derive(Clone, Copy, Debug, PartialEq, Eq, Structural)]
pub enum Want {
    /// A lookup of the resolver's name for this record type.
    Lookup(u16),
    /// The published list with this number.
    Fetch(usize),
    Nothing,
}

/// A search for the resolver.
#[derive(Debug)]
pub struct Search {
    /// Whether every way is tried, even after one has brought news.
    pub probe_all: bool,
    /// Whether anything out there has answered.
    pub reached: bool,
    /// Whether the next connection tries other addresses.
    pub changed: bool,
    pub stage: Stage,
    /// What the first lookup found.
    pub first: Vec<IpAddr>,
}

fn only_v4(list: &Vec<IpAddr>) -> (r: Vec<Ipv4Addr>)
    ensures
        r@ == v4_of_list(list@),
{
    let mut out: Vec<Ipv4Addr> = Vec::new();
    let mut i: usize = 0;
    while i < list.len()
        invariant
            i <= list@.len(),
            out@ == v4_of_list(list@.take(i as int)),
        decreases list@.len() - i,
    {
        assert(list@.take(i + 1).drop_last() =~= list@.take(i as int));
        if let IpAddr::V4(ip) = list[i] {
            out.push(ip);
        }
        i += 1;
    }
    assert(list@.take(i as int) =~= list@);
    out
}

fn only_v6(list: &Vec<IpAddr>) -> (r: Vec<Ipv6Addr>)
    ensures
        r@ == v6_of_list(list@),
{
    let mut out: Vec<Ipv6Addr> = Vec::new();
    let mut i: usize = 0;
    while i < list.len()
        invariant
            i <= list@.len(),
            out@ == v6_of_list(list@.take(i as int)),
        decreases list@.len() - i,
    {
        assert(list@.take(i + 1).drop_last() =~= list@.take(i as int));
        if let IpAddr::V6(ip) = list[i] {
            out.push(ip);
        }
        i += 1;
    }
    assert(list@.take(i as int) =~= list@);
    out
}

impl Search {
    /// A search starts with a lookup.
    pub fn start(probe_all: bool) -> (r: Search)
        ensures
            r.probe_all == probe_all,
            !r.reached,
            !r.changed,
            r.stage == Stage::AskV4,
            r.first@.len() == 0,
    {
        Search { probe_all, reached: false, changed: false, stage: Stage::AskV4, first: Vec::new() }
    }

    /// What the search needs next.
    pub fn wants(&self) -> (r: Want)
        ensures
            r == (match self.stage {
                Stage::AskV4 => Want::Lookup(TYPE_A),
                Stage::AskV6 => Want::Lookup(TYPE_AAAA),
                Stage::Fetch(k) => Want::Fetch(k),
                Stage::Over => Want::Nothing,
            }),
    {
        match self.stage {
            Stage::AskV4 => Want::Lookup(TYPE_A),
            Stage::AskV6 => Want::Lookup(TYPE_AAAA),
            Stage::Fetch(k) => Want::Fetch(k),
            Stage::Over => Want::Nothing,
        }
    }

    /// How often the search can still ask for something.
    pub open spec fn left(&self) -> int {
        match self.stage {
            Stage::AskV4 => MANIFESTS + 2,
            Stage::AskV6 => MANIFESTS + 1,
            Stage::Fetch(k) => if k < MANIFESTS {
                MANIFESTS - k
            } else {
                0
            },
            Stage::Over => 0,
        }
    }

    /// The first lookup is done: what it found is kept for the second.
    pub fn looked_up_v4(&mut self, lookup: Lookup)
        requires
            old(self).stage == Stage::AskV4,
        ensures
            final(self).stage == Stage::AskV6,
            final(self).first == lookup.found,
            final(self).reached == (old(self).reached || lookup.reached),
            final(self).changed == old(self).changed,
            final(self).probe_all == old(self).probe_all,
            final(self).left() < old(self).left(),
    {
        self.first = lookup.found;
        self.reached = self.reached || lookup.reached;
        self.stage = Stage::AskV6;
    }

    /// The second lookup is done. Where the first found anything, the addresses are adopted; news
    /// end the search, unless every way is to be tried.
    pub fn looked_up_v6(&mut self, e: &mut Endpoints, lookup: Lookup, now: u64) -> (r: Adoption)
        requires
            old(self).stage == Stage::AskV6,
        ensures
            ({
                let v4 = v4_of_list(old(self).first@);
                let v6 = v6_of_list(lookup.found@);
                let came = if old(self).first@.len() == 0 {
                    Adoption::Refused
                } else {
                    answer_adoption(old(e).lists(), v4, v6)
                };
                &&& r == came
                &&& came == Adoption::Refused ==> *final(e) == *old(e)
                &&& came != Adoption::Refused ==> final(e).lists() == answered(
                    old(e).lists(),
                    v4,
                    v6,
                ) && final(e).source@ == "public-dns"@ && final(e).checked_at == now
                &&& final(e).v == old(e).v
                &&& final(e).serial == old(e).serial
                &&& final(e).updated == old(e).updated
                &&& final(e).notice == old(e).notice
                &&& final(e).last_rescue_at == old(e).last_rescue_at
                &&& final(self).changed == (old(self).changed || came == Adoption::Changed)
                &&& final(self).stage == (if came == Adoption::Changed && !old(self).probe_all {
                    Stage::Over
                } else {
                    Stage::Fetch(0)
                })
            }),
            final(self).reached == (old(self).reached || lookup.reached),
            final(self).probe_all == old(self).probe_all,
            final(self).first == old(self).first,
            final(self).left() < old(self).left(),
    {
        self.reached = self.reached || lookup.reached;
        self.stage = Stage::Fetch(0);
        if self.first.len() == 0 {
            return Adoption::Refused;
        }
        let v4: Vec<Ipv4Addr> = only_v4(&self.first);
        let v6: Vec<Ipv6Addr> = only_v6(&lookup.found);
        let came: Adoption = adopt_addresses(e, &v4, &v6, "public-dns", now);
        if came == Adoption::Changed {
            self.changed = true;
            if !self.probe_all {
                self.stage = Stage::Over;
            }
        }
        came
    }

    /// A published list was fetched. It ends the search, whether it brought news or not.
    pub fn fetched(&mut self, e: &mut Endpoints, manifest: Endpoints, now: u64) -> (r: Adoption)
        requires
            old(self).stage is Fetch,
            old(self).stage->Fetch_0 < MANIFESTS,
        ensures
            r == Adoption::Refused <==> !takes(old(e).serial, manifest.serial, manifest.v4@),
            r == Adoption::Changed <==> takes(old(e).serial, manifest.serial, manifest.v4@)
                && publishes_news(old(e).lists(), manifest.lists()),
            r == Adoption::Refused ==> *final(e) == *old(e),
            r != Adoption::Refused ==> {
                &&& final(e).lists() == published(old(e).lists(), manifest.lists())
                &&& final(e).serial == manifest.serial
                &&& final(e).updated@ == clipped(manifest.updated@, 100)
                &&& final(e).notice@ == clipped(manifest.notice@, 500)
                &&& final(e).source@ == "manifest"@
                &&& final(e).checked_at == now
            },
            final(e).v == old(e).v,
            final(e).last_rescue_at == old(e).last_rescue_at,
            final(self).changed == (old(self).changed || r == Adoption::Changed),
            final(self).reached,
            final(self).stage == Stage::Over,
            final(self).probe_all == old(self).probe_all,
            final(self).first == old(self).first,
            final(self).left() < old(self).left(),
    {
        self.reached = true;
        self.stage = Stage::Over;
        let came: Adoption = adopt_manifest(e, manifest, now);
        if came == Adoption::Changed {
            self.changed = true;
        }
        came
    }

    /// A published list could not be fetched; `reached` says whether anything answered on the way.
    /// After the last one the search is over, and where nothing at all answered, most of the
    /// waiting time is given back.
    pub fn not_fetched(&mut self, e: &mut Endpoints, reached: bool, now: u64) -> (r: bool)
        requires
            old(self).stage is Fetch,
            old(self).stage->Fetch_0 < MANIFESTS,
        ensures
            final(self).reached == (old(self).reached || reached),
            final(self).changed == old(self).changed,
            final(self).probe_all == old(self).probe_all,
            final(self).first == old(self).first,
            final(self).stage == (if old(self).stage->Fetch_0 + 1 < MANIFESTS {
                Stage::Fetch((old(self).stage->Fetch_0 + 1) as usize)
            } else {
                Stage::Over
            }),
            r == (final(self).stage == Stage::Over && !final(self).reached),
            *final(e) == (if r {
                Endpoints { last_rescue_at: relaxed(now), ..*old(e) }
            } else {
                *old(e)
            }),
            final(self).left() < old(self).left(),
    {
        self.reached = self.reached || reached;
        if let Stage::Fetch(k) = self.stage {
            if k + 1 < MANIFESTS {
                self.stage = Stage::Fetch(k + 1);
                return false;
            }
        }
        self.stage = Stage::Over;
        if !self.reached {
            relax_cooldown(e, now);
            return true;
        }
        false
    }
}

/// The host and the place of a published list.
pub fn manifest(i: usize) -> (r: (&'static str, &'static str))
    requires
        i < MANIFESTS,
    ensures
        r.0@ == manifest_host(i as int),
        r.1@ == manifest_url(i as int),
{
    if i == 0 {
        (
            "raw.githubusercontent.com",
            "https://raw.githubusercontent.com/confeden/DNS-AI/main/endpoints.json",
        )
    } else {
        ("dns-ai.ru", "https://dns-ai.ru/endpoints.json")
    }
}

/// Why a published list is not taken up.
#[derive(Clone, Copy, Debug, PartialEq, Eq, Structural)]
pub enum ManifestError {
    /// Its host has no address.
    NoAddress,
    /// It is too long.
    TooLarge,
    /// Its form is newer than this build knows.
    Format(u32),
}

impl ManifestError {
    /// What the error says to a person about `host`.
    pub open spec fn says(self, host: Seq<char>) -> Seq<char> {
        match self {
            ManifestError::NoAddress => host + " did not resolve through any public resolver"@,
            ManifestError::TooLarge => "the file is larger than "@ + decimal(MAX_BODY as nat)
                + " bytes"@,
            ManifestError::Format(v) => "the file is format v"@ + decimal(v as nat)
                + ", which this build does not read"@,
        }
    }

    /// The error in words.
    pub fn message(&self, host: &str) -> (r: String)
        ensures
            r@ == self.says(host@),
    {
        match self {
            ManifestError::NoAddress => {
                let mut out = host.to_owned();
                out.append(" did not resolve through any public resolver");
                out
            },
            ManifestError::TooLarge => {
                let mut out = "the file is larger than ".to_owned();
                push_decimal(&mut out, MAX_BODY as u64);
                out.append(" bytes");
                out
            },
            ManifestError::Format(v) => {
                let mut out = "the file is format v".to_owned();
                push_decimal(&mut out, *v as u64);
                out.append(", which this build does not read");
                out
            },
        }
    }
}

/// The addresses with the port that everything runs on.
pub open spec fn at_port(s: Seq<IpAddr>) -> Seq<SocketAddr> {
    Seq::new(s.len(), |i: int| SocketAddr { ip: s[i], port: DOH_PORT })
}

/// Where a published list is fetched from: at most so many of the addresses that its host has.
pub fn manifest_addrs(found: &Vec<IpAddr>) -> (r: Result<Vec<SocketAddr>, ManifestError>)
    ensures
        match r {
            Ok(v) => found@.len() > 0 && v@ == at_port(capped(found@, MAX_ADDRS as nat)),
            Err(e) => found@.len() == 0 && e == ManifestError::NoAddress,
        },
{
    if found.len() == 0 {
        return Err(ManifestError::NoAddress);
    }
    let ghost all = at_port(capped(found@, MAX_ADDRS as nat));
    let n: usize = if found.len() <= MAX_ADDRS {
        found.len()
    } else {
        MAX_ADDRS
    };
    let mut out: Vec<SocketAddr> = Vec::new();
    let mut i: usize = 0;
    while i < n
        invariant
            i <= n <= found@.len(),
            all == at_port(capped(found@, MAX_ADDRS as nat)),
            n == all.len(),
            out@ == all.take(i as int),
        decreases n - i,
    {
        out.push(SocketAddr { ip: found[i], port: DOH_PORT });
        i += 1;
        assert(all.take(i as int) =~= all.take(i - 1).push(all[i - 1]));
    }
    assert(all.take(i as int) =~= all);
    Ok(out)
}

/// Adds a piece to what was fetched so far, unless that makes it too long.
pub fn add_chunk(body: &mut Vec<u8>, chunk: &[u8]) -> (r: Result<(), ManifestError>)
    ensures
        match r {
            Ok(_) => old(body)@.len() + chunk@.len() <= MAX_BODY && final(body)@ == old(body)@
                + chunk@,
            Err(e) => old(body)@.len() + chunk@.len() > MAX_BODY && e == ManifestError::TooLarge
                && *final(body) == *old(body),
        },
{
    if body.len() > MAX_BODY || chunk.len() > MAX_BODY - body.len() {
        return Err(ManifestError::TooLarge);
    }
    body.extend_from_slice(chunk);
    Ok(())
}

/// A published list whose form this build knows.
pub fn readable(manifest: Endpoints) -> (r: Result<Endpoints, ManifestError>)
    ensures
        match r {
            Ok(m) => manifest.v <= FORMAT && m == manifest,
            Err(e) => manifest.v > FORMAT && e == ManifestError::Format(manifest.v),
        },
{
    if manifest.v > FORMAT {
        return Err(ManifestError::Format(manifest.v));
    }
    Ok(manifest)
}

/// Who is asked where the resolver is once it cannot be reached: three public resolvers by their
/// addresses, and then two places that publish the list, each by its own name.
pub proof fn law_who_is_asked()
    ensures
        PUBLIC_RESOLVERS == 3,
        MANIFESTS == 2,
        MAX_BODY == 65536,
        resolver_url(0) == "https://8.8.8.8/dns-query"@,
        resolver_url(1) == "https://9.9.9.9/dns-query"@,
        resolver_url(2) == "https://1.1.1.1/dns-query"@,
        manifest_url(0) == "https://"@ + manifest_host(0) + "/confeden/DNS-AI/main/endpoints.json"@,
        manifest_url(1) == "https://"@ + manifest_host(1) + "/endpoints.json"@,
        manifest_host(0) == "raw.githubusercontent.com"@,
        manifest_host(1) == "dns-ai.ru"@,
{
    reveal_strlit("https://");
    reveal_strlit("raw.githubusercontent.com");
    reveal_strlit("/confeden/DNS-AI/main/endpoints.json");
    reveal_strlit("https://raw.githubusercontent.com/confeden/DNS-AI/main/endpoints.json");
    reveal_strlit("dns-ai.ru");
    reveal_strlit("/endpoints.json");
    reveal_strlit("https://dns-ai.ru/endpoints.json");
    assert(manifest_url(0) =~= "https://"@ + manifest_host(0)
        + "/confeden/DNS-AI/main/endpoints.json"@);
    assert(manifest_url(1) =~= "https://"@ + manifest_host(1) + "/endpoints.json"@);
}

/// Every address that was found is tried, in the order in which they were found, on port 443.
pub proof fn law_every_found_address_is_tried(s: Seq<IpAddr>, i: int)
    requires
        0 <= i < s.len(),
    ensures
        at_port(s).len() == s.len(),
        at_port(s)[i].ip == s[i],
        at_port(s)[i].port == 443,
{
}

/// What is said where a published list is of no use.
pub proof fn law_useless_lists_in_words(host: Seq<char>, v: u32)
    ensures
        ManifestError::NoAddress.says(host) == host + " did not resolve through any public resolver"@,
        ManifestError::TooLarge.says(host) == "the file is larger than "@ + decimal(65536)
            + " bytes"@,
        ManifestError::Format(v).says(host) == "the file is format v"@ + decimal(v as nat)
            + ", which this build does not read"@,
{
}

} // verus!
