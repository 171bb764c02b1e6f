//! Where the resolver is, and what the user can set.

use vstd::prelude::*;

use crate::addr::{member, IpAddr, Ipv4Addr, Ipv6Addr, SocketAddr};
use crate::endpoints::{known_addresses, Endpoints};
use crate::iptext::{v4_text, v6_text};
#[allow(unused_imports)]
use crate::endpoints::known;
#[allow(unused_imports)]
use crate::iptext::{v4_form, v6_form};
#[allow(unused_imports)]
use crate::text::{texts, texts_push};

verus! {

/// The name in the resolver's certificate. It is never looked up through the machine's own DNS.
pub const RESOLVER_HOST: &'static str = "dns.dns-ai.ru";

/// The resolver's DNS-over-HTTPS endpoint.
pub const DOH_URL: &'static str = "https://dns.dns-ai.ru/dns-query";

/// The name to give a DNS-over-TLS or DNS-over-QUIC client.
pub const DOT_DOQ_HOST: &'static str = "dns.dns-ai.ru";

/// What goes into the adapters when the local resolver does the work.
pub const ADAPTER_DNS_V4: &'static str = "127.0.0.1";

pub const ADAPTER_DNS_V6: &'static str = "::1";

/// How long one attempt upstream may take.
pub const UPSTREAM_TIMEOUT_SECS: u64 = 4;

/// The first Windows build with a DNS-over-HTTPS client of its own.
pub const WINDOWS_11_BUILD: u32 = 22000;

/// The resolver's built-in IPv4 addresses.
pub open spec fn built_in_v4() -> Seq<Ipv4Addr> {
    seq![
        Ipv4Addr { a: 192, b: 144, c: 59, d: 14 },
        Ipv4Addr { a: 186, b: 246, c: 49, d: 127 },
    ]
}

/// The resolver's built-in IPv6 addresses.
pub open spec fn built_in_v6() -> Seq<Ipv6Addr> {
    seq![
        Ipv6Addr { s0: 0x2a0d, s1: 0x8480, s2: 0, s3: 0x067c, s4: 0, s5: 0, s6: 0, s7: 0x14 },
        Ipv6Addr { s0: 0x2a0a, s1: 0x2b41, s2: 0, s3: 0x500d, s4: 0, s5: 0, s6: 0, s7: 0x53 },
    ]
}

/// The resolver's built-in IPv4 addresses.
pub fn resolver_ips() -> (r: Vec<Ipv4Addr>)
    ensures
        r@ == built_in_v4(),
{
    let mut v: Vec<Ipv4Addr> = Vec::new();
    v.push(Ipv4Addr::new(192, 144, 59, 14));
    v.push(Ipv4Addr::new(186, 246, 49, 127));
    assert(v@ =~= built_in_v4());
    v
}

/// The resolver's built-in IPv6 addresses.
pub fn resolver_ipv6() -> (r: Vec<Ipv6Addr>)
    ensures
        r@ == built_in_v6(),
{
    let mut v: Vec<Ipv6Addr> = Vec::new();
    v.push(Ipv6Addr::new(0x2a0d, 0x8480, 0, 0x067c, 0, 0, 0, 0x14));
    v.push(Ipv6Addr::new(0x2a0a, 0x2b41, 0, 0x500d, 0, 0, 0, 0x53));
    assert(v@ =~= built_in_v6());
    v
}

/// IPv4 addresses in their written form.
pub open spec fn v4_forms(v: Seq<Ipv4Addr>) -> Seq<Seq<char>> {
    Seq::new(v.len(), |i: int| v4_form(v[i]))
}

/// IPv6 addresses in their written form.
pub open spec fn v6_forms(v: Seq<Ipv6Addr>) -> Seq<Seq<char>> {
    Seq::new(v.len(), |i: int| v6_form(v[i]))
}

/// Writes IPv4 addresses.
pub fn v4_texts(v: &Vec<Ipv4Addr>) -> (r: Vec<String>)
    ensures
        texts(r@) == v4_forms(v@),
{
    broadcast use texts_push;

    let mut out: Vec<String> = Vec::new();
    let mut i: usize = 0;
    while i < v.len()
        invariant
            i <= v@.len(),
            texts(out@) == v4_forms(v@).take(i as int),
        decreases v@.len() - i,
    {
        out.push(v4_text(&v[i]));
        i += 1;
        assert(v4_forms(v@).take(i as int) =~= v4_forms(v@).take(i - 1).push(
            v4_forms(v@)[i - 1],
        ));
    }
    assert(v4_forms(v@).take(i as int) =~= v4_forms(v@));
    out
}

/// Writes IPv6 addresses.
pub fn v6_texts(v: &Vec<Ipv6Addr>) -> (r: Vec<String>)
    ensures
        texts(r@) == v6_forms(v@),
{
    broadcast use texts_push;

    let mut out: Vec<String> = Vec::new();
    let mut i: usize = 0;
    while i < v.len()
        invariant
            i <= v@.len(),
            texts(out@) == v6_forms(v@).take(i as int),
        decreases v@.len() - i,
    {
        out.push(v6_text(&v[i]));
        i += 1;
        assert(v6_forms(v@).take(i as int) =~= v6_forms(v@).take(i - 1).push(
            v6_forms(v@)[i - 1],
        ));
    }
    assert(v6_forms(v@).take(i as int) =~= v6_forms(v@));
    out
}

/// The built-in IPv4 addresses as text.
pub fn resolver_ips_text() -> (r: Vec<String>)
    ensures
        texts(r@) == v4_forms(built_in_v4()),
{
    v4_texts(&resolver_ips())
}

/// The built-in IPv6 addresses as text.
pub fn resolver_ipv6_text() -> (r: Vec<String>)
    ensures
        texts(r@) == v6_forms(built_in_v6()),
{
    v6_texts(&resolver_ipv6())
}

/// IPv4 addresses with a port, then IPv6 addresses with the same port.
pub open spec fn sockets(v4: Seq<Ipv4Addr>, v6: Seq<Ipv6Addr>, port: u16) -> Seq<SocketAddr> {
    Seq::new(v4.len(), |i: int| SocketAddr { ip: IpAddr::V4(v4[i]), port }) + Seq::new(
        v6.len(),
        |i: int| SocketAddr { ip: IpAddr::V6(v6[i]), port },
    )
}

/// Puts a port to IPv4 addresses and then to IPv6 addresses.
pub fn with_port(v4: &Vec<Ipv4Addr>, v6: &Vec<Ipv6Addr>, port: u16) -> (r: Vec<SocketAddr>)
    ensures
        r@ == sockets(v4@, v6@, port),
{
    let mut out: Vec<SocketAddr> = Vec::new();
    let mut i: usize = 0;
    while i < v4.len()
        invariant
            i <= v4@.len(),
            out@ == sockets(v4@, v6@, port).take(i as int),
        decreases v4@.len() - i,
    {
        out.push(SocketAddr { ip: IpAddr::V4(v4[i]), port });
        i += 1;
        assert(sockets(v4@, v6@, port).take(i as int) =~= sockets(v4@, v6@, port).take(i - 1).push(
            sockets(v4@, v6@, port)[i - 1],
        ));
    }
    let mut j: usize = 0;
    while j < v6.len()
        invariant
            j <= v6@.len(),
            out@ == sockets(v4@, v6@, port).take(v4@.len() + j),
        decreases v6@.len() - j,
    {
        out.push(SocketAddr { ip: IpAddr::V6(v6[j]), port });
        j += 1;
        assert(sockets(v4@, v6@, port).take(v4@.len() + j) =~= sockets(v4@, v6@, port).take(
            v4@.len() + j - 1,
        ).push(sockets(v4@, v6@, port)[v4@.len() + j - 1]));
    }
    assert(sockets(v4@, v6@, port).take(v4@.len() + j) =~= sockets(v4@, v6@, port));
    out
}

/// The built-in places to connect to: IPv4 first, because half-working IPv6 is far more common
/// than none.
pub fn bootstrap_addrs() -> (r: Vec<SocketAddr>)
    ensures
        r@ == sockets(built_in_v4(), built_in_v6(), 443),
{
    with_port(&resolver_ips(), &resolver_ipv6(), 443)
}

/// How the machine is pointed at the resolver.
#[derive(Clone, Copy, Debug, PartialEq, Eq, Structural)]
pub enum Mode {
    /// The adapters point at the local resolver, which speaks DNS over HTTPS.
    Stub,
    /// The adapters carry the resolver's own addresses, and Windows speaks DNS over HTTPS.
    Native,
}

impl Default for Mode {
    fn default() -> (r: Mode)
        ensures
            r == Mode::Stub,
    {
        Mode::Stub
    }
}

/// The mode that a Windows of this build should use.
pub open spec fn mode_for(build: u32) -> Mode {
    if build >= WINDOWS_11_BUILD {
        Mode::Native
    } else {
        Mode::Stub
    }
}

/// The mode that a Windows of this build should use: its own client where it has one.
pub fn recommended_mode(build: u32) -> (r: Mode)
    ensures
        r == mode_for(build),
{
    if crate::netif::native_doh_supported(build) {
        Mode::Native
    } else {
        Mode::Stub
    }
}

/// What the user can set.
#[derive(Clone, Copy, Debug, PartialEq, Eq, Structural)]
pub struct Settings {
    /// Whether the adapters are to be pointed at the resolver.
    pub enabled: bool,
    /// By which mechanism.
    pub mode: Mode,
    /// Whether the adapters' IPv6 DNS is configured as well; otherwise it is emptied.
    pub ipv6: bool,
    /// Whether VPN and tunnel adapters are configured too.
    pub include_vpn_adapters: bool,
    /// Whether the tray starts at logon.
    pub autostart_tray: bool,
    /// Whether the service starts with Windows.
    pub service_autostart: bool,
}

/// The settings that are safe on every Windows.
pub open spec fn default_settings() -> Settings {
    Settings {
        enabled: false,
        mode: Mode::Stub,
        ipv6: true,
        include_vpn_adapters: false,
        autostart_tray: true,
        service_autostart: true,
    }
}

impl Default for Settings {
    fn default() -> (r: Settings)
        ensures
            r == default_settings(),
    {
        Settings {
            enabled: false,
            mode: Mode::Stub,
            ipv6: true,
            include_vpn_adapters: false,
            autostart_tray: true,
            service_autostart: true,
        }
    }
}

impl Settings {
    /// What a machine without settings starts with: the defaults, in the mode that its Windows
    /// should use.
    pub fn recommended(build: u32) -> (r: Settings)
        ensures
            r == (Settings { mode: mode_for(build), ..default_settings() }),
    {
        let mut s = Settings::default();
        s.mode = recommended_mode(build);
        s
    }

    /// The settings to run with: those that were read, or the recommended ones where there were
    /// none or they could not be read.
    pub fn loaded(read: Option<Settings>, build: u32) -> (r: Settings)
        ensures
            r == (match read {
                Some(s) => s,
                None => Settings { mode: mode_for(build), ..default_settings() },
            }),
    {
        match read {
            Some(s) => s,
            None => Settings::recommended(build),
        }
    }
}

/// Whether an address is, or ever was, the resolver's, as far as is known.
pub fn is_resolver_address(e: &Endpoints, ip: &IpAddr) -> (r: bool)
    ensures
        r == known(e.lists()).contains(*ip),
{
    member(&known_addresses(e), ip)
}

/// Addresses with a port: those of IPv4 first and then those of IPv6, each in its order and all with
/// the port.
pub proof fn law_addresses_get_the_port(v4: Seq<Ipv4Addr>, v6: Seq<Ipv6Addr>, port: u16, i: int)
    ensures
        sockets(v4, v6, port).len() == v4.len() + v6.len(),
        0 <= i < v4.len() ==> sockets(v4, v6, port)[i] == (SocketAddr {
            ip: IpAddr::V4(v4[i]),
            port,
        }),
        0 <= i < v6.len() ==> sockets(v4, v6, port)[v4.len() + i] == (SocketAddr {
            ip: IpAddr::V6(v6[i]),
            port,
        }),
        v4_forms(v4).len() == v4.len(),
        v6_forms(v6).len() == v6.len(),
        0 <= i < v4.len() ==> v4_forms(v4)[i] == v4_form(v4[i]),
        0 <= i < v6.len() ==> v6_forms(v6)[i] == v6_form(v6[i]),
{
}

/// Windows of build 22000 and later has a DNS-over-HTTPS client of its own, and one before it has
/// none; so the later ones use their own, and the others the local resolver.
pub proof fn law_modes_of_the_builds(build: u32)
    ensures
        build >= 22000 ==> mode_for(build) == Mode::Native,
        build < 22000 ==> mode_for(build) == Mode::Stub,
        WINDOWS_11_BUILD == 22000,
{
}

/// What is built in: two addresses of the resolver in each family, the name that its certificate is
/// checked against, and where it is asked.
pub proof fn law_what_is_built_in()
    ensures
        built_in_v4().len() == 2,
        built_in_v4()[0] == (Ipv4Addr { a: 192, b: 144, c: 59, d: 14 }),
        built_in_v4()[1] == (Ipv4Addr { a: 186, b: 246, c: 49, d: 127 }),
        built_in_v6().len() == 2,
        built_in_v6()[0].segments() == seq![0x2a0du16, 0x8480, 0, 0x67c, 0, 0, 0, 0x14],
        built_in_v6()[1].segments() == seq![0x2a0au16, 0x2b41, 0, 0x500d, 0, 0, 0, 0x53],
        RESOLVER_HOST@ == "dns.dns-ai.ru"@,
        DOT_DOQ_HOST@ == RESOLVER_HOST@,
        DOH_URL@ == "https://"@ + RESOLVER_HOST@ + "/dns-query"@,
        ADAPTER_DNS_V4@ == "127.0.0.1"@,
        ADAPTER_DNS_V6@ == "::1"@,
        UPSTREAM_TIMEOUT_SECS == 4,
{
    reveal_strlit("dns.dns-ai.ru");
    reveal_strlit("https://");
    reveal_strlit("/dns-query");
    reveal_strlit("https://dns.dns-ai.ru/dns-query");
    assert(DOH_URL@ =~= "https://"@ + RESOLVER_HOST@ + "/dns-query"@);
}

/// Nothing is switched on until somebody asks for it; IPv6 is covered, tunnels are left alone, and both
/// the window and the service start by themselves.
pub proof fn law_settings_to_begin_with()
    ensures
        !default_settings().enabled,
        default_settings().mode == Mode::Stub,
        default_settings().ipv6,
        !default_settings().include_vpn_adapters,
        default_settings().autostart_tray,
        default_settings().service_autostart,
{
}

} // verus!
