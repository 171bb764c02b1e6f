//! Network adapters: which of them are configured, what their DNS settings are, and the commands that
//! change them.

use vstd::prelude::*;

use crate::config::WINDOWS_11_BUILD;
use crate::iptext::parse_ip;
use crate::text::{
    chars_of, contains, join, push_decimal, push_signed, replace, split, text_of, lower_text,
    trim, wide,
};
#[allow(unused_imports)]
use crate::addr::IpAddr;
#[allow(unused_imports)]
use crate::iptext::{digit_value, ip_of, lemma_in_a_piece, number};
#[allow(unused_imports)]
use crate::text::{
    decimal, holds, joined, law_separators_part_pieces, law_trimming_takes_the_ends_off,
    law_white_space, lemma_pieces_not_empty, lowered, pieces, replaced, signed, texts, texts_push,
    trimmed, trimmed_back, trimmed_front, utf16, white,
};

verus! {

/// The creation flag that keeps a helper process from opening a console window.
pub fn no_window() -> (r: u32)
    ensures
        r == 0x0800_0000,
{
    0x0800_0000
}

/// Interface types, by their IANA numbers.
pub const IF_TYPE_PPP: u32 = 23;

pub const IF_TYPE_SOFTWARE_LOOPBACK: u32 = 24;

pub const IF_TYPE_TUNNEL: u32 = 131;

/// The two families of addresses.
#[derive(Clone, Copy, Debug, PartialEq, Eq, Structural)]
pub enum Family {
    V4,
    V6,
}

impl Family {
    /// The context of a `netsh interface` command.
    pub open spec fn context(self) -> Seq<char> {
        match self {
            Family::V4 => "ipv4"@,
            Family::V6 => "ipv6"@,
        }
    }

    /// The service that the registry keeps the settings under.
    pub open spec fn service(self) -> Seq<char> {
        match self {
            Family::V4 => "Tcpip"@,
            Family::V6 => "Tcpip6"@,
        }
    }

    /// The context of a `netsh interface` command.
    pub fn netsh_context(self) -> (r: &'static str)
        ensures
            r@ == self.context(),
    {
        match self {
            Family::V4 => "ipv4",
            Family::V6 => "ipv6",
        }
    }

    /// The service that the registry keeps the settings under.
    pub fn tcpip_service(self) -> (r: &'static str)
        ensures
            r@ == self.service(),
    {
        match self {
            Family::V4 => "Tcpip",
            Family::V6 => "Tcpip6",
        }
    }
}

/// The DNS setting of one family of an adapter, in the two forms in which it can be restored.
#[derive(Debug)]
pub enum DnsState {
    /// Obtained automatically.
    Dhcp,
    /// An explicit list, which may be empty.
    Static(Vec<String>),
}

/// A DNS setting and its servers as texts.
#[verifier::ext_equal]
pub enum StateView {
    Dhcp,
    Static(Seq<Seq<char>>),
}

impl View for DnsState {
    type V = StateView;

    open spec fn view(&self) -> StateView {
        match self {
            DnsState::Dhcp => StateView::Dhcp,
            DnsState::Static(v) => StateView::Static(texts(v@)),
        }
    }
}

/// The same list of texts once more.
pub fn copy_texts(v: &Vec<String>) -> (r: Vec<String>)
    ensures
        r@ == v@,
{
    let mut out: Vec<String> = Vec::new();
    let mut i: usize = 0;
    while i < v.len()
        invariant
            i <= v@.len(),
            out@ == v@.take(i as int),
        decreases v@.len() - i,
    {
        out.push(v[i].clone());
        i += 1;
        assert(v@.take(i as int) =~= v@.take(i - 1).push(v@[i - 1]));
    }
    assert(v@.take(i as int) =~= v@);
    out
}

impl Clone for DnsState {
    fn clone(&self) -> (r: DnsState)
        ensures
            r@ == self@,
    {
        match self {
            DnsState::Dhcp => DnsState::Dhcp,
            DnsState::Static(v) => DnsState::Static(copy_texts(v)),
        }
    }
}

/// What an adapter is.
#[derive(Debug)]
pub enum AdapterKind {
    /// A real path to the internet.
    Physical,
    /// Virtual or host-only, and by which mark it was known.
    Virtual(String),
    /// A tunnel, and by which mark it was known.
    Vpn(String),
}

/// What an adapter is, with its mark as a text.
#[verifier::ext_equal]
pub enum KindView {
    Physical,
    Virtual(Seq<char>),
    Vpn(Seq<char>),
}

impl View for AdapterKind {
    type V = KindView;

    open spec fn view(&self) -> KindView {
        match self {
            AdapterKind::Physical => KindView::Physical,
            AdapterKind::Virtual(m) => KindView::Virtual(m@),
            AdapterKind::Vpn(m) => KindView::Vpn(m@),
        }
    }
}

/// A network adapter.
#[derive(Debug)]
pub struct Adapter {
    pub index: u32,
    pub ipv6_index: u32,
    /// The interface identifier that the registry is keyed by.
    pub guid: String,
    pub alias: String,
    pub description: String,
    pub if_type: u32,
    pub up: bool,
    pub gateway_v4: bool,
    pub gateway_v6: bool,
}

impl Clone for Adapter {
    fn clone(&self) -> (r: Adapter)
        ensures
            r == *self,
    {
        Adapter {
            index: self.index,
            ipv6_index: self.ipv6_index,
            guid: self.guid.clone(),
            alias: self.alias.clone(),
            description: self.description.clone(),
            if_type: self.if_type,
            up: self.up,
            gateway_v4: self.gateway_v4,
            gateway_v6: self.gateway_v6,
        }
    }
}

/// The marks of an adapter that has no path to the internet of its own.
pub open spec fn virtual_marks() -> Seq<Seq<char>> {
    seq![
        "vethernet"@,
        "hyper-v"@,
        "vmware"@,
        "virtualbox"@,
        "vbox"@,
        "wsl"@,
        "docker"@,
        "loopback"@,
        "wi-fi direct"@,
        "wifi direct"@,
        "microsoft wi-fi direct"@,
        "teredo"@,
        "isatap"@,
        "bluetooth"@,
        "npcap"@,
        "packet scheduler"@,
    ]
}

/// The marks of a tunnel.
pub open spec fn vpn_marks() -> Seq<Seq<char>> {
    seq![
        "wireguard"@,
        "wintun"@,
        "openvpn"@,
        "tap-windows"@,
        "tap adapter"@,
        "tailscale"@,
        "zerotier"@,
        "anyconnect"@,
        "nordlynx"@,
        "globalprotect"@,
        "pangp"@,
        "forticlient"@,
        "amnezia"@,
        "mullvad"@,
        "proton"@,
        "outline"@,
        "wan miniport"@,
        "softether"@,
        "hamachi"@,
    ]
}

fn virtual_markers() -> (r: Vec<String>)
    ensures
        texts(r@) == virtual_marks(),
{
    broadcast use texts_push;

    let mut v: Vec<String> = Vec::new();
    v.push("vethernet".to_owned());
    v.push("hyper-v".to_owned());
    v.push("vmware".to_owned());
    v.push("virtualbox".to_owned());
    v.push("vbox".to_owned());
    v.push("wsl".to_owned());
    v.push("docker".to_owned());
    v.push("loopback".to_owned());
    v.push("wi-fi direct".to_owned());
    v.push("wifi direct".to_owned());
    v.push("microsoft wi-fi direct".to_owned());
    v.push("teredo".to_owned());
    v.push("isatap".to_owned());
    v.push("bluetooth".to_owned());
    v.push("npcap".to_owned());
    v.push("packet scheduler".to_owned());
    assert(texts(v@) =~= virtual_marks());
    v
}

fn vpn_markers() -> (r: Vec<String>)
    ensures
        texts(r@) == vpn_marks(),
{
    broadcast use texts_push;

    let mut v: Vec<String> = Vec::new();
    v.push("wireguard".to_owned());
    v.push("wintun".to_owned());
    v.push("openvpn".to_owned());
    v.push("tap-windows".to_owned());
    v.push("tap adapter".to_owned());
    v.push("tailscale".to_owned());
    v.push("zerotier".to_owned());
    v.push("anyconnect".to_owned());
    v.push("nordlynx".to_owned());
    v.push("globalprotect".to_owned());
    v.push("pangp".to_owned());
    v.push("forticlient".to_owned());
    v.push("amnezia".to_owned());
    v.push("mullvad".to_owned());
    v.push("proton".to_owned());
    v.push("outline".to_owned());
    v.push("wan miniport".to_owned());
    v.push("softether".to_owned());
    v.push("hamachi".to_owned());
    assert(texts(v@) =~= vpn_marks());
    v
}

/// The first of the marks that stands in a text, from the mark with number `i` on.
pub open spec fn first_mark(hay: Seq<char>, marks: Seq<Seq<char>>, i: int) -> Option<Seq<char>>
    decreases marks.len() - i,
{
    if i < 0 || i >= marks.len() {
        None
    } else if holds(hay, marks[i]) {
        Some(marks[i])
    } else {
        first_mark(hay, marks, i + 1)
    }
}

fn find_mark(hay: &str, marks: &Vec<String>) -> (r: Option<String>)
    ensures
        match r {
            Some(m) => first_mark(hay@, texts(marks@), 0) == Some(m@),
            None => first_mark(hay@, texts(marks@), 0) is None,
        },
{
    let mut i: usize = 0;
    while i < marks.len()
        invariant
            i <= marks@.len(),
            first_mark(hay@, texts(marks@), i as int) == first_mark(hay@, texts(marks@), 0),
        decreases marks@.len() - i,
    {
        if contains(hay, marks[i].as_str()) {
            return Some(marks[i].clone());
        }
        i += 1;
    }
    None
}

/// What an adapter is, by its name and description in lower case and its interface type.
pub open spec fn kind_by(hay: Seq<char>, if_type: u32) -> KindView {
    if if_type == IF_TYPE_SOFTWARE_LOOPBACK {
        KindView::Virtual("loopback"@)
    } else if first_mark(hay, virtual_marks(), 0) is Some {
        KindView::Virtual(first_mark(hay, virtual_marks(), 0)->0)
    } else if first_mark(hay, vpn_marks(), 0) is Some {
        KindView::Vpn(first_mark(hay, vpn_marks(), 0)->0)
    } else if if_type == IF_TYPE_TUNNEL || if_type == IF_TYPE_PPP {
        KindView::Vpn("ifType "@ + decimal(if_type as nat))
    } else {
        KindView::Physical
    }
}

/// Tells what an adapter is, by its name and description in lower case and its interface type.
pub fn kind_of(hay: &str, if_type: u32) -> (r: AdapterKind)
    ensures
        r@ == kind_by(hay@, if_type),
{
    if if_type == IF_TYPE_SOFTWARE_LOOPBACK {
        return AdapterKind::Virtual("loopback".to_owned());
    }
    if let Some(m) = find_mark(hay, &virtual_markers()) {
        return AdapterKind::Virtual(m);
    }
    if let Some(m) = find_mark(hay, &vpn_markers()) {
        return AdapterKind::Vpn(m);
    }
    if if_type == IF_TYPE_TUNNEL || if_type == IF_TYPE_PPP {
        let mut m = "ifType ".to_owned();
        push_decimal(&mut m, if_type as u64);
        return AdapterKind::Vpn(m);
    }
    AdapterKind::Physical
}

impl Adapter {
    /// What the adapter is.
    pub open spec fn kind_view(&self) -> KindView {
        kind_by(lowered(self.alias@ + " "@ + self.description@), self.if_type)
    }

    /// Whether the adapter has a default route.
    pub open spec fn routed(&self) -> bool {
        self.gateway_v4 || self.gateway_v6
    }

    /// Tells what the adapter is.
    pub fn kind(&self) -> (r: AdapterKind)
        ensures
            r@ == self.kind_view(),
    {
        let mut name = self.alias.clone();
        name.append(" ");
        name.append(self.description.as_str());
        kind_of(lower_text(name.as_str()).as_str(), self.if_type)
    }

    /// Whether the adapter has a default route in either family.
    pub fn has_default_route(&self) -> (r: bool)
        ensures
            r == self.routed(),
    {
        self.gateway_v4 || self.gateway_v6
    }
}

/// An adapter that is left alone, and why.
#[derive(Debug)]
pub struct SkippedAdapter {
    pub alias: String,
    pub reason: String,
}

impl View for SkippedAdapter {
    type V = (Seq<char>, Seq<char>);

    open spec fn view(&self) -> (Seq<char>, Seq<char>) {
        (self.alias@, self.reason@)
    }
}

/// The adapters that are configured, and those that are not.
#[derive(Debug)]
pub struct AdapterSelection {
    pub chosen: Vec<Adapter>,
    pub skipped: Vec<SkippedAdapter>,
}

/// Why an adapter that is up is left alone, if it is.
pub open spec fn skip_reason(a: Adapter, include_vpn: bool) -> Option<Seq<char>> {
    if !a.routed() {
        Some("нет шлюза по умолчанию"@)
    } else {
        match a.kind_view() {
            KindView::Physical => None,
            KindView::Virtual(m) => Some("виртуальный адаптер ("@ + m + ")"@),
            KindView::Vpn(m) => if include_vpn {
                None
            } else {
                Some("VPN/туннель ("@ + m + ") — включается в настройках"@)
            },
        }
    }
}

/// The adapters that are configured.
pub open spec fn chosen_of(all: Seq<Adapter>, include_vpn: bool) -> Seq<Adapter>
    decreases all.len(),
{
    if all.len() == 0 {
        Seq::empty()
    } else if all.last().up && skip_reason(all.last(), include_vpn) is None {
        chosen_of(all.drop_last(), include_vpn).push(all.last())
    } else {
        chosen_of(all.drop_last(), include_vpn)
    }
}

/// The adapters that are up and left alone, with the reasons.
pub open spec fn skipped_of(all: Seq<Adapter>, include_vpn: bool) -> Seq<(Seq<char>, Seq<char>)>
    decreases all.len(),
{
    if all.len() == 0 {
        Seq::empty()
    } else if all.last().up && skip_reason(all.last(), include_vpn) is Some {
        skipped_of(all.drop_last(), include_vpn).push(
            (all.last().alias@, skip_reason(all.last(), include_vpn)->0),
        )
    } else {
        skipped_of(all.drop_last(), include_vpn)
    }
}

/// What a list of skipped adapters says.
pub open spec fn skips(v: Seq<SkippedAdapter>) -> Seq<(Seq<char>, Seq<char>)> {
    Seq::new(v.len(), |i: int| v[i]@)
}

fn reason_to_skip(a: &Adapter, include_vpn: bool) -> (r: Option<String>)
    ensures
        match r {
            Some(t) => skip_reason(*a, include_vpn) == Some(t@),
            None => skip_reason(*a, include_vpn) is None,
        },
{
    if !a.has_default_route() {
        return Some("нет шлюза по умолчанию".to_owned());
    }
    match a.kind() {
        AdapterKind::Physical => None,
        AdapterKind::Virtual(m) => {
            let mut t = "виртуальный адаптер (".to_owned();
            t.append(m.as_str());
            t.append(")");
            Some(t)
        },
        AdapterKind::Vpn(m) => {
            if include_vpn {
                return None;
            }
            let mut t = "VPN/туннель (".to_owned();
            t.append(m.as_str());
            t.append(") — включается в настройках");
            Some(t)
        },
    }
}

/// Chooses the adapters to configure: those that are up, have a default route, and are not virtual;
/// tunnels only where they were asked for. Every other adapter that is up is named with the reason.
pub fn select_adapters(all: &Vec<Adapter>, include_vpn: bool) -> (r: AdapterSelection)
    ensures
        r.chosen@ == chosen_of(all@, include_vpn),
        skips(r.skipped@) == skipped_of(all@, include_vpn),
{
    let mut chosen: Vec<Adapter> = Vec::new();
    let mut skipped: Vec<SkippedAdapter> = Vec::new();
    let mut i: usize = 0;
    assert(skips(skipped@) =~= skipped_of(all@.take(0), include_vpn));
    while i < all.len()
        invariant
            i <= all@.len(),
            chosen@ == chosen_of(all@.take(i as int), include_vpn),
            skips(skipped@) == skipped_of(all@.take(i as int), include_vpn),
        decreases all@.len() - i,
    {
        let a: &Adapter = &all[i];
        assert(all@.take(i + 1).drop_last() =~= all@.take(i as int));
        if a.up {
            match reason_to_skip(a, include_vpn) {
                Some(reason) => {
                    let s = SkippedAdapter { alias: a.alias.clone(), reason };
                    assert(skips(skipped@.push(s)) =~= skips(skipped@).push(s@));
                    skipped.push(s);
                },
                None => {
                    chosen.push(a.clone());
                },
            }
        }
        i += 1;
    }
    assert(all@.take(i as int) =~= all@);
    AdapterSelection { chosen, skipped }
}

/// The adapters that are up.
pub open spec fn ups(all: Seq<Adapter>) -> nat
    decreases all.len(),
{
    if all.len() == 0 {
        0
    } else {
        ups(all.drop_last()) + (if all.last().up {
            1nat
        } else {
            0
        })
    }
}

/// Whether an adapter is configured.
pub open spec fn taken(a: Adapter, include_vpn: bool) -> bool {
    a.up && a.routed() && !(a.kind_view() is Virtual) && (a.kind_view() is Vpn ==> include_vpn)
}

/// Whether an adapter is a tunnel with a default route that is up.
pub open spec fn open_tunnel(a: Adapter) -> bool {
    a.up && a.routed() && a.kind_view() is Vpn
}

/// Every adapter that is up is configured or named with a reason, and no other is: those are
/// configured, in their order, that have a default route and are not virtual, tunnels only where these
/// were asked for; the rest is named, in its order too.
pub proof fn law_every_adapter_is_accounted_for(all: Seq<Adapter>, include_vpn: bool)
    ensures
        chosen_of(all, include_vpn) == all.filter(|a: Adapter| taken(a, include_vpn)),
        skipped_of(all, include_vpn) == all.filter(
            |a: Adapter| a.up && !taken(a, include_vpn),
        ).map_values(|a: Adapter| (a.alias@, skip_reason(a, include_vpn)->0)),
        chosen_of(all, include_vpn).len() + skipped_of(all, include_vpn).len() == ups(all),
    decreases all.len(),
{
    reveal(Seq::filter);
    if all.len() > 0 {
        let last = all.last();
        let rest = all.drop_last();
        let named = |a: Adapter| a.up && !taken(a, include_vpn);
        let says = |a: Adapter| (a.alias@, skip_reason(a, include_vpn)->0);
        law_every_adapter_is_accounted_for(rest, include_vpn);
        assert(taken(last, include_vpn) == (last.up && skip_reason(last, include_vpn) is None));
        assert(rest.filter(named).push(last).map_values(says) =~= rest.filter(named).map_values(
            says,
        ).push(says(last)));
    } else {
        assert(skipped_of(all, include_vpn) =~= all.filter(
            |a: Adapter| a.up && !taken(a, include_vpn),
        ).map_values(|a: Adapter| (a.alias@, skip_reason(a, include_vpn)->0)));
    }
}

/// Asking for tunnels only adds adapters. Without the tunnels among them, those that are configured
/// are the same in the same order; and the tunnels among them are, in their order, all that are up and
/// have a default route.
pub proof fn law_tunnels_only_add(all: Seq<Adapter>)
    ensures
        chosen_of(all, true).filter(|a: Adapter| !(a.kind_view() is Vpn)) == chosen_of(all, false),
        chosen_of(all, true).filter(|a: Adapter| a.kind_view() is Vpn) == all.filter(
            |a: Adapter| open_tunnel(a),
        ),
        forall|a: Adapter| #[trigger]
            chosen_of(all, false).contains(a) ==> chosen_of(all, true).contains(a),
    decreases all.len(),
{
    reveal(Seq::filter);
    let more = chosen_of(all, true);
    let plain = |a: Adapter| !(a.kind_view() is Vpn);
    if all.len() > 0 {
        let before = chosen_of(all.drop_last(), true);
        law_tunnels_only_add(all.drop_last());
        if taken(all.last(), true) {
            assert(more.drop_last() =~= before);
            assert(more.last() == all.last());
        }
    }
    assert forall|a: Adapter| #[trigger] chosen_of(all, false).contains(a) implies more.contains(
        a,
    ) by {
        more.lemma_filter_contains_rev(plain, a);
    }
}

/// What Windows answers where it needs a larger buffer.
pub const ERROR_BUFFER_OVERFLOW: u32 = 111;

/// How often Windows is asked for the adapters.
pub const LIST_TRIES: u32 = 5;

/// How many bytes the first buffer for the adapters has.
pub const FIRST_BUFFER: u32 = 32768;

/// What comes of asking Windows for the adapters.
#[derive(Debug)]
pub enum Listing {
    /// They are in the buffer.
    Done,
    /// It is to be asked once more, with the buffer that it wants.
    Again,
    Failed(String),
}

/// What comes of the answer `code` to the question for the adapters, where it had been asked `tried`
/// times before.
pub fn listed(tried: u32, code: u32) -> (r: Listing)
    ensures
        match r {
            Listing::Done => code == 0,
            Listing::Again => code == ERROR_BUFFER_OVERFLOW && tried + 1 < LIST_TRIES,
            Listing::Failed(e) => code != 0 && (code == ERROR_BUFFER_OVERFLOW ==> tried + 1
                >= LIST_TRIES) && e@ == (if code == ERROR_BUFFER_OVERFLOW {
                "GetAdaptersAddresses kept asking for a bigger buffer"@
            } else {
                "GetAdaptersAddresses failed with code "@ + decimal(code as nat)
            }),
        },
{
    if code == 0 {
        return Listing::Done;
    }
    if code != ERROR_BUFFER_OVERFLOW {
        let mut out = "GetAdaptersAddresses failed with code ".to_owned();
        push_decimal(&mut out, code as u64);
        return Listing::Failed(out);
    }
    if tried < LIST_TRIES - 1 {
        Listing::Again
    } else {
        Listing::Failed("GetAdaptersAddresses kept asking for a bigger buffer".to_owned())
    }
}

/// Whether a Windows of this build has a DNS-over-HTTPS client of its own.
pub fn native_doh_supported(build: u32) -> (r: bool)
    ensures
        r == (build >= WINDOWS_11_BUILD),
{
    build >= WINDOWS_11_BUILD
}

/// Where the registry keeps an adapter's DNS settings.
pub open spec fn settings_path(guid: Seq<char>, family: Family) -> Seq<char> {
    "SYSTEM\\CurrentControlSet\\Services\\"@ + family.service() + "\\Parameters\\Interfaces\\"@ + guid
}

/// Where the registry keeps an adapter's DNS settings.
pub fn settings_key(guid: &str, family: Family) -> (r: String)
    ensures
        r@ == settings_path(guid@, family),
{
    let mut out = "SYSTEM\\CurrentControlSet\\Services\\".to_owned();
    out.append(family.tcpip_service());
    out.append("\\Parameters\\Interfaces\\");
    out.append(guid);
    out
}

/// Those pieces of a list that are not empty once the white space around them is gone.
pub open spec fn entries(p: Seq<Seq<char>>) -> Seq<Seq<char>>
    decreases p.len(),
{
    if p.len() == 0 {
        Seq::empty()
    } else if trimmed(p.last()).len() == 0 {
        entries(p.drop_last())
    } else {
        entries(p.drop_last()).push(trimmed(p.last()))
    }
}

/// The servers that a `NameServer` value lists.
pub open spec fn listed_servers(value: Seq<char>) -> Seq<Seq<char>> {
    entries(pieces(value, seq![',', ' ', ';']))
}

/// The DNS setting that the registry records: `None` where the adapter has no key there.
pub open spec fn recorded_state(value: Option<Seq<char>>) -> StateView {
    match value {
        None => StateView::Dhcp,
        Some(v) => if listed_servers(v).len() == 0 {
            StateView::Dhcp
        } else {
            StateView::Static(listed_servers(v))
        },
    }
}

/// The DNS setting that a `NameServer` value records; `None` where the adapter has no key. An empty
/// list means that the setting is obtained automatically.
pub fn read_dns_state(value: Option<&str>) -> (r: DnsState)
    ensures
        r@ == recorded_state(
            match value {
                Some(v) => Some(v@),
                None => None,
            },
        ),
{
    broadcast use texts_push;

    let value: &str = match value {
        Some(v) => v,
        None => return DnsState::Dhcp,
    };
    let mut seps: Vec<char> = Vec::new();
    seps.push(',');
    seps.push(' ');
    seps.push(';');
    assert(seps@ =~= seq![',', ' ', ';']);
    let parts: Vec<String> = split(value, &seps);
    let ghost all = pieces(value@, seq![',', ' ', ';']);
    let mut servers: Vec<String> = Vec::new();
    let mut i: usize = 0;
    assert(texts(servers@) =~= entries(all.take(0)));
    while i < parts.len()
        invariant
            i <= parts@.len(),
            texts(parts@) == all,
            texts(servers@) == entries(all.take(i as int)),
        decreases parts@.len() - i,
    {
        assert(all.take(i + 1).drop_last() =~= all.take(i as int));
        assert(all[i as int] == parts@[i as int]@);
        let one = trim(parts[i].as_str());
        if !one.as_str().is_empty() {
            servers.push(one);
        }
        i += 1;
    }
    assert(all.take(i as int) =~= all);
    assert(texts(servers@).len() == servers@.len());
    if servers.len() == 0 {
        DnsState::Dhcp
    } else {
        DnsState::Static(servers)
    }
}

/// The arguments of a `netsh` call that sets the first server of a list.
pub open spec fn set_static_args(index: u32, family: Family, first: Seq<char>) -> Seq<Seq<char>> {
    seq![
        "interface"@,
        family.context(),
        "set"@,
        "dnsservers"@,
        "name="@ + decimal(index as nat),
        "source=static"@,
        "address="@ + first,
        "validate=no"@,
    ]
}

/// The arguments of a `netsh` call that adds the server with number `k` of a list, from 1.
pub open spec fn add_server_args(index: u32, family: Family, server: Seq<char>, k: int) -> Seq<
    Seq<char>,
> {
    seq![
        "interface"@,
        family.context(),
        "add"@,
        "dnsservers"@,
        "name="@ + decimal(index as nat),
        "address="@ + server,
        "index="@ + decimal(k as nat),
        "validate=no"@,
    ]
}

/// The `netsh` calls that set a list: the first server replaces the old list, the others follow. An
/// empty list is set as `none`.
pub open spec fn static_calls(index: u32, family: Family, servers: Seq<Seq<char>>) -> Seq<
    Seq<Seq<char>>,
> {
    if servers.len() == 0 {
        seq![set_static_args(index, family, "none"@)]
    } else {
        Seq::new(
            servers.len(),
            |i: int|
                if i == 0 {
                    set_static_args(index, family, servers[0])
                } else {
                    add_server_args(index, family, servers[i], i + 1)
                },
        )
    }
}

/// The `netsh` call that returns to settings that are obtained automatically.
pub open spec fn dhcp_args(index: u32, family: Family) -> Seq<Seq<char>> {
    seq![
        "interface"@,
        family.context(),
        "set"@,
        "dnsservers"@,
        "name="@ + decimal(index as nat),
        "source=dhcp"@,
    ]
}

/// The `netsh` calls that apply a setting.
pub open spec fn state_calls(index: u32, family: Family, state: StateView) -> Seq<Seq<Seq<char>>> {
    match state {
        StateView::Dhcp => seq![dhcp_args(index, family)],
        StateView::Static(servers) => static_calls(index, family, servers),
    }
}

/// The arguments of several calls.
pub open spec fn calls(v: Seq<Vec<String>>) -> Seq<Seq<Seq<char>>> {
    Seq::new(v.len(), |i: int| texts(v[i]@))
}

fn name_arg(index: u32) -> (r: String)
    ensures
        r@ == "name="@ + decimal(index as nat),
{
    let mut out = "name=".to_owned();
    push_decimal(&mut out, index as u64);
    out
}

fn address_arg(server: &str) -> (r: String)
    ensures
        r@ == "address="@ + server@,
{
    let mut out = "address=".to_owned();
    out.append(server);
    out
}

fn set_static_call(index: u32, family: Family, first: &str) -> (r: Vec<String>)
    ensures
        texts(r@) == set_static_args(index, family, first@),
{
    broadcast use texts_push;

    let mut v: Vec<String> = Vec::new();
    v.push("interface".to_owned());
    v.push(family.netsh_context().to_owned());
    v.push("set".to_owned());
    v.push("dnsservers".to_owned());
    v.push(name_arg(index));
    v.push("source=static".to_owned());
    v.push(address_arg(first));
    v.push("validate=no".to_owned());
    assert(texts(v@) =~= set_static_args(index, family, first@));
    v
}

fn add_server_call(index: u32, family: Family, server: &str, k: u64) -> (r: Vec<String>)
    ensures
        texts(r@) == add_server_args(index, family, server@, k as int),
{
    broadcast use texts_push;

    let mut number_arg = "index=".to_owned();
    push_decimal(&mut number_arg, k);
    let mut v: Vec<String> = Vec::new();
    v.push("interface".to_owned());
    v.push(family.netsh_context().to_owned());
    v.push("add".to_owned());
    v.push("dnsservers".to_owned());
    v.push(name_arg(index));
    v.push(address_arg(server));
    v.push(number_arg);
    v.push("validate=no".to_owned());
    assert(texts(v@) =~= add_server_args(index, family, server@, k as int));
    v
}

/// The `netsh` calls that point one family of an adapter at a list of servers. `Calls` makes them.
pub fn set_dns_static(index: u32, family: Family, servers: &Vec<String>) -> (r: Vec<Vec<String>>)
    ensures
        calls(r@) == static_calls(index, family, texts(servers@)),
{
    let ghost list = texts(servers@);
    let ghost want = static_calls(index, family, list);
    let mut out: Vec<Vec<String>> = Vec::new();
    if servers.len() == 0 {
        out.push(set_static_call(index, family, "none"));
        assert(calls(out@) =~= want);
        return out;
    }
    let mut i: usize = 0;
    while i < servers.len()
        invariant
            i <= servers@.len(),
            servers@.len() > 0,
            list == texts(servers@),
            want == static_calls(index, family, list),
            calls(out@) == want.take(i as int),
        decreases servers@.len() - i,
    {
        let call: Vec<String> = if i == 0 {
            set_static_call(index, family, servers[i].as_str())
        } else {
            add_server_call(index, family, servers[i].as_str(), i as u64 + 1)
        };
        assert(list[i as int] == servers@[i as int]@);
        assert(calls(out@.push(call)) =~= calls(out@).push(texts(call@)));
        out.push(call);
        i += 1;
        assert(want.take(i as int) =~= want.take(i - 1).push(want[i - 1]));
    }
    assert(want.take(i as int) =~= want);
    out
}

/// The `netsh` call that returns one family of an adapter to settings that are obtained
/// automatically.
pub fn set_dns_dhcp(index: u32, family: Family) -> (r: Vec<String>)
    ensures
        texts(r@) == dhcp_args(index, family),
{
    broadcast use texts_push;

    let mut v: Vec<String> = Vec::new();
    v.push("interface".to_owned());
    v.push(family.netsh_context().to_owned());
    v.push("set".to_owned());
    v.push("dnsservers".to_owned());
    v.push(name_arg(index));
    v.push("source=dhcp".to_owned());
    assert(texts(v@) =~= dhcp_args(index, family));
    v
}

/// The `netsh` calls that apply a setting to one family of an adapter.
pub fn apply_state(index: u32, family: Family, state: &DnsState) -> (r: Vec<Vec<String>>)
    ensures
        calls(r@) == state_calls(index, family, state@),
{
    match state {
        DnsState::Dhcp => {
            let mut out: Vec<Vec<String>> = Vec::new();
            out.push(set_dns_dhcp(index, family));
            assert(calls(out@) =~= seq![dhcp_args(index, family)]);
            out
        },
        DnsState::Static(servers) => set_dns_static(index, family, servers),
    }
}

/// `netsh` calls that are made one after the other. The first that fails ends them, and fails the
/// whole.
#[derive(Debug)]
pub struct Calls {
    /// The arguments of each call.
    pub list: Vec<Vec<String>>,
    /// How many have succeeded; they are the first ones.
    pub done: usize,
    /// What the call that failed had to say.
    pub error: Option<String>,
}

impl Calls {
    /// What holds before and after every call. One that failed has not succeeded.
    pub open spec fn wf(&self) -> bool {
        self.done <= self.list@.len() && (self.error is Some ==> self.done < self.list@.len())
    }

    /// Whether no further call is made: one has failed, or all have succeeded.
    pub open spec fn over(&self) -> bool {
        self.error is Some || self.done == self.list@.len()
    }

    /// Starts with the first call.
    pub fn begin(list: Vec<Vec<String>>) -> (r: Calls)
        ensures
            r.wf(),
            r == (Calls { list, done: 0, error: None }),
    {
        Calls { list, done: 0, error: None }
    }

    /// The arguments of the next call, if there is one to be made.
    pub fn next(&self) -> (r: Option<&Vec<String>>)
        requires
            self.wf(),
        ensures
            match r {
                Some(args) => !self.over() && *args == self.list@[self.done as int],
                None => self.over(),
            },
    {
        if self.error.is_none() && self.done < self.list.len() {
            Some(&self.list[self.done])
        } else {
            None
        }
    }

    /// The call was made, and succeeded or not.
    pub fn made(&mut self, result: Result<(), String>)
        requires
            old(self).wf(),
            !old(self).over(),
        ensures
            final(self).wf(),
            *final(self) == (match result {
                Ok(_) => Calls { done: (old(self).done + 1) as usize, ..*old(self) },
                Err(e) => Calls { error: Some(e), ..*old(self) },
            }),
            result is Err ==> final(self).over(),
    {
        match result {
            Ok(_) => {
                assert(self.done < self.list.len());
                self.done = self.done + 1;
            },
            Err(e) => {
                self.error = Some(e);
            },
        }
    }

    /// What the calls come to: a success exactly where every one of them succeeded.
    pub fn outcome(self) -> (r: Result<(), String>)
        requires
            self.wf(),
            self.over(),
        ensures
            match r {
                Ok(_) => self.done == self.list@.len(),
                Err(e) => self.error == Some(e) && self.done < self.list@.len(),
            },
    {
        match self.error {
            Some(e) => Err(e),
            None => Ok(()),
        }
    }
}

/// An adapter counts as pointed at a list of servers exactly where the call for each of them
/// succeeded, or the one that clears the list where it is empty.
pub proof fn law_every_server_or_an_error(
    run: Calls,
    index: u32,
    family: Family,
    servers: Seq<Seq<char>>,
)
    requires
        run.wf(),
        run.over(),
        calls(run.list@) == static_calls(index, family, servers),
    ensures
        run.error is None <==> run.done == (if servers.len() == 0 {
            1
        } else {
            servers.len()
        }),
{
    assert(calls(run.list@).len() == run.list@.len());
}

/// The number that a text of decimal digits writes, with a plus sign in front or not; none where it
/// is no number below 2^32.
pub open spec fn unsigned(s: Seq<char>) -> Option<u32> {
    let digits = if s.len() > 0 && s[0] == '+' {
        s.skip(1)
    } else {
        s
    };
    if digits.len() > 0 && number(digits, 10) is Some && number(digits, 10)->0 <= u32::MAX {
        Some(number(digits, 10)->0 as u32)
    } else {
        None
    }
}

proof fn lemma_number_grows(s: Seq<char>, k: int)
    requires
        0 <= k <= s.len(),
        number(s, 10) is Some,
    ensures
        number(s.take(k), 10) is Some,
        0 <= number(s.take(k), 10)->0 <= number(s, 10)->0,
    decreases s.len(),
{
    if k < s.len() {
        lemma_number_grows(s.drop_last(), k);
        assert(s.drop_last().take(k) =~= s.take(k));
        let n = number(s.drop_last(), 10)->0;
        assert(number(s, 10)->0 == n * 10 + digit_value(s.last(), 10)->0);
    } else {
        assert(s.take(k) =~= s);
        if s.len() > 0 {
            lemma_number_grows(s.drop_last(), s.len() - 1);
            assert(s.drop_last().take(s.len() - 1) =~= s.drop_last());
        }
    }
}

fn parse_unsigned(s: &str) -> (r: Option<u32>)
    ensures
        r == unsigned(s@),
{
    let c: Vec<char> = chars_of(s);
    let from: usize = if c.len() > 0 && c[0] == '+' {
        1
    } else {
        0
    };
    let ghost digits = s@.skip(from as int);
    assert(s@.skip(0) =~= s@);
    if from == c.len() {
        return None;
    }
    let mut n: u32 = 0;
    let mut i: usize = from;
    while i < c.len()
        invariant
            c@ == s@,
            from <= i <= c@.len(),
            digits == (if s@.len() > 0 && s@[0] == '+' {
                s@.skip(1)
            } else {
                s@
            }),
            digits == s@.skip(from as int),
            digits.len() > 0,
            number(digits.take(i - from), 10) == Some(n as int),
        decreases c@.len() - i,
    {
        let ch: char = c[i];
        let ghost here = digits.take(i + 1 - from);
        proof {
            assert(here.drop_last() =~= digits.take(i - from));
            assert(here.last() == ch);
            if number(digits, 10) is Some {
                lemma_number_grows(digits, i + 1 - from);
            }
        }
        if ch < '0' || ch > '9' {
            return None;
        }
        let d: u32 = ch as u32 - '0' as u32;
        assert(number(here, 10) == Some(n * 10 + d));
        let wide_n: u64 = n as u64 * 10 + d as u64;
        if wide_n > u32::MAX as u64 {
            return None;
        }
        n = wide_n as u32;
        i += 1;
    }
    assert(digits.take(i - from) =~= digits);
    Some(n)
}

/// The build number that the registry records; zero where it records none.
pub fn windows_build(recorded: Option<&str>) -> (r: u32)
    ensures
        r == (match recorded {
            Some(s) => match unsigned(trimmed(s@)) {
                Some(n) => n,
                None => 0u32,
            },
            None => 0,
        }),
{
    match recorded {
        Some(s) => match parse_unsigned(trim(s).as_str()) {
            Some(n) => n,
            None => 0,
        },
        None => 0,
    }
}

/// The arguments that register a DNS-over-HTTPS template for a server, without a fallback to plain
/// DNS.
pub open spec fn template_args(server: Seq<char>, template: Seq<char>) -> Seq<Seq<char>> {
    seq![
        "dns"@,
        "add"@,
        "encryption"@,
        "server="@ + server,
        "dohtemplate="@ + template,
        "autoupgrade=yes"@,
        "udpfallback=no"@,
    ]
}

/// The arguments that remove a server's template.
pub open spec fn untemplate_args(server: Seq<char>) -> Seq<Seq<char>> {
    seq!["dns"@, "delete"@, "encryption"@, "server="@ + server]
}

/// The arguments that show a server's template.
pub open spec fn show_template_args(server: Seq<char>) -> Seq<Seq<char>> {
    seq!["dns"@, "show"@, "encryption"@, "server="@ + server]
}

fn server_arg(server: &str) -> (r: String)
    ensures
        r@ == "server="@ + server@,
{
    let mut out = "server=".to_owned();
    out.append(server);
    out
}

/// The `netsh` call that registers a template for a server.
pub fn doh_template_add(server: &str, template: &str) -> (r: Vec<String>)
    ensures
        texts(r@) == template_args(server@, template@),
{
    broadcast use texts_push;

    let mut arg = "dohtemplate=".to_owned();
    arg.append(template);
    let mut v: Vec<String> = Vec::new();
    v.push("dns".to_owned());
    v.push("add".to_owned());
    v.push("encryption".to_owned());
    v.push(server_arg(server));
    v.push(arg);
    v.push("autoupgrade=yes".to_owned());
    v.push("udpfallback=no".to_owned());
    assert(texts(v@) =~= template_args(server@, template@));
    v
}

/// The `netsh` call that removes a server's template.
pub fn doh_template_remove(server: &str) -> (r: Vec<String>)
    ensures
        texts(r@) == untemplate_args(server@),
{
    broadcast use texts_push;

    let mut v: Vec<String> = Vec::new();
    v.push("dns".to_owned());
    v.push("delete".to_owned());
    v.push("encryption".to_owned());
    v.push(server_arg(server));
    assert(texts(v@) =~= untemplate_args(server@));
    v
}

/// The `netsh` call that shows a server's template.
pub fn doh_template_show(server: &str) -> (r: Vec<String>)
    ensures
        texts(r@) == show_template_args(server@),
{
    broadcast use texts_push;

    let mut v: Vec<String> = Vec::new();
    v.push("dns".to_owned());
    v.push("show".to_owned());
    v.push("encryption".to_owned());
    v.push(server_arg(server));
    assert(texts(v@) =~= show_template_args(server@));
    v
}

/// What `netsh` said of a server's template: nothing where it could not be asked, and otherwise
/// whether its output names one.
pub fn doh_template_lookup(ran: bool, output: &str) -> (r: Option<bool>)
    ensures
        r == (if ran {
            Some(holds(lowered(output@), "https://"@))
        } else {
            None
        }),
{
    if !ran {
        return None;
    }
    Some(names_template(lower_text(output).as_str()))
}

/// Whether output in lower case names a template.
pub fn names_template(output: &str) -> (r: bool)
    ensures
        r == holds(output@, "https://"@),
{
    contains(output, "https://")
}

/// Whether Windows is known to have a template. That it could not be asked does not mean that it
/// has none, nor that it has one.
pub fn doh_template_exists(lookup: Option<bool>) -> (r: bool)
    ensures
        r == (lookup == Some(true)),
{
    match lookup {
        Some(there) => there,
        None => false,
    }
}

/// Whether a template is gone after its removal was tried: also where the removal failed, but there
/// is none.
pub fn template_gone(removed: bool, lookup: Option<bool>) -> (r: bool)
    ensures
        r == (removed || lookup == Some(false)),
{
    if removed {
        return true;
    }
    match lookup {
        Some(there) => !there,
        None => false,
    }
}

/// Whether two texts write one address.
pub open spec fn one_address(a: Seq<char>, b: Seq<char>) -> bool {
    ip_of(trimmed(a)) is Some && ip_of(trimmed(a)) == ip_of(trimmed(b))
}

/// Whether two texts write one address, however they spell it.
pub fn same_address(a: &str, b: &str) -> (r: bool)
    ensures
        r == one_address(a@, b@),
{
    match (parse_ip(trim(a).as_str()), parse_ip(trim(b).as_str())) {
        (Some(x), Some(y)) => x == y,
        _ => false,
    }
}

/// What a failed process says: its exit code, its output, and what it wrote as errors, on one line.
pub open spec fn failure_text(code: Option<i32>, out: Seq<char>, err: Seq<char>) -> Seq<char> {
    let shown = match code {
        Some(c) => "Some("@ + signed(c as int) + ")"@,
        None => "None"@,
    };
    "exit "@ + shown + ": "@ + replaced(trimmed(out + trimmed(err)), seq!['\r', '\n'], ' ')
}

/// What a failed process says.
pub fn process_failure(code: Option<i32>, out: &str, err: &str) -> (r: String)
    ensures
        r@ == failure_text(code, out@, err@),
{
    let mut all = out.to_owned();
    all.append(trim(err).as_str());
    let mut breaks: Vec<char> = Vec::new();
    breaks.push('\r');
    breaks.push('\n');
    assert(breaks@ =~= seq!['\r', '\n']);
    let line = replace(trim(all.as_str()).as_str(), &breaks, ' ');
    let mut text = "exit ".to_owned();
    match code {
        Some(c) => {
            text.append("Some(");
            push_signed(&mut text, c);
            text.append(")");
        },
        None => {
            text.append("None");
        },
    }
    text.append(": ");
    text.append(line.as_str());
    assert(text@ =~= failure_text(code, out@, err@));
    text
}

/// What a failed `netsh` call says.
pub open spec fn netsh_failure(args: Seq<Seq<char>>, cause: Seq<char>) -> Seq<char> {
    "netsh "@ + joined(args, " "@) + ": "@ + cause
}

/// What a failed `netsh` call says: what was called, and why it failed.
pub fn netsh_error(args: &Vec<String>, cause: &str) -> (r: String)
    ensures
        r@ == netsh_failure(texts(args@), cause@),
{
    let mut out = "netsh ".to_owned();
    out.append(join(args, " ").as_str());
    out.append(": ");
    out.append(cause);
    out
}

/// An interface identifier, field by field.
#[derive(Clone, Copy, Debug)]
pub struct Guid {
    pub data1: u32,
    pub data2: u16,
    pub data3: u16,
    pub data4: [u8; 8],
}

/// The text without the opening braces it starts with.
pub open spec fn unopened(s: Seq<char>) -> Seq<char>
    decreases s.len(),
{
    if s.len() > 0 && s.first() == '{' {
        unopened(s.drop_first())
    } else {
        s
    }
}

/// The text without the closing braces it ends with.
pub open spec fn unclosed(s: Seq<char>) -> Seq<char>
    decreases s.len(),
{
    if s.len() > 0 && s.last() == '}' {
        unclosed(s.drop_last())
    } else {
        s
    }
}

/// The groups of digits of an interface identifier.
pub open spec fn guid_groups(text: Seq<char>) -> Seq<Seq<char>> {
    pieces(unclosed(unopened(trimmed(text))), seq!['-'])
}

/// Whether all of a text are hexadecimal digits.
pub open spec fn all_hex(s: Seq<char>) -> bool {
    forall|i: int| 0 <= i < s.len() ==> digit_value(#[trigger] s[i], 16) is Some
}

/// Whether groups have the form of an interface identifier: 8, 4, 4, 4 and 12 hexadecimal digits.
pub open spec fn guid_shaped(g: Seq<Seq<char>>) -> bool {
    &&& g.len() == 5
    &&& g[0].len() == 8 && all_hex(g[0])
    &&& g[1].len() == 4 && all_hex(g[1])
    &&& g[2].len() == 4 && all_hex(g[2])
    &&& g[3].len() == 4 && all_hex(g[3])
    &&& g[4].len() == 12 && all_hex(g[4])
}

/// Whether an identifier is what the groups write. The last two groups are eight bytes in the order
/// in which they are written.
pub open spec fn guid_is(guid: Guid, g: Seq<Seq<char>>) -> bool {
    let tail = g[3] + g[4];
    &&& number(g[0], 16) == Some(guid.data1 as int)
    &&& number(g[1], 16) == Some(guid.data2 as int)
    &&& number(g[2], 16) == Some(guid.data3 as int)
    &&& forall|i: int|
        0 <= i < 8 ==> number(tail.subrange(2 * i, 2 * i + 2), 16) == Some(
            #[trigger] guid.data4@[i] as int,
        )
}

/// Sixteen to the power of `k`.
spec fn sixteens(k: nat) -> nat
    decreases k,
{
    if k == 0 {
        1
    } else {
        16 * sixteens((k - 1) as nat)
    }
}

fn hex_of(c: char) -> (r: Option<u32>)
    ensures
        match r {
            Some(d) => digit_value(c, 16) == Some(d as int) && d < 16,
            None => digit_value(c, 16) is None,
        },
{
    if '0' <= c && c <= '9' {
        Some(c as u32 - '0' as u32)
    } else if 'a' <= c && c <= 'f' {
        Some(c as u32 - 'a' as u32 + 10)
    } else if 'A' <= c && c <= 'F' {
        Some(c as u32 - 'A' as u32 + 10)
    } else {
        None
    }
}

fn hex_digits(c: &Vec<char>, n: usize) -> (r: bool)
    ensures
        r == (c@.len() == n && all_hex(c@)),
{
    if c.len() != n {
        return false;
    }
    let mut i: usize = 0;
    while i < c.len()
        invariant
            i <= c@.len(),
            forall|k: int| 0 <= k < i ==> digit_value(#[trigger] c@[k], 16) is Some,
        decreases c@.len() - i,
    {
        if hex_of(c[i]).is_none() {
            assert(digit_value(c@[i as int], 16) is None);
            return false;
        }
        i += 1;
    }
    true
}

/// The number that at most eight hexadecimal digits write.
fn hex_value(c: &Vec<char>, from: usize, to: usize) -> (r: u32)
    requires
        from <= to <= c@.len(),
        to - from <= 8,
        all_hex(c@),
    ensures
        number(c@.subrange(from as int, to as int), 16) == Some(r as int),
        to - from <= 4 ==> r < 0x10000,
        to - from <= 2 ==> r < 0x100,
{
    let ghost all = c@.subrange(from as int, to as int);
    let mut n: u64 = 0;
    let mut i: usize = from;
    proof {
        reveal_with_fuel(sixteens, 9);
    }
    while i < to
        invariant
            from <= i <= to <= c@.len(),
            to - from <= 8,
            all_hex(c@),
            all == c@.subrange(from as int, to as int),
            number(all.take(i - from), 16) == Some(n as int),
            n < sixteens((i - from) as nat),
            sixteens((i - from) as nat) <= 0x1_0000_0000,
        decreases to - i,
    {
        proof {
            assert(all.take(i + 1 - from).drop_last() =~= all.take(i - from));
            assert(digit_value(c@[i as int], 16) is Some);
            reveal_with_fuel(sixteens, 9);
        }
        let d: u32 = match hex_of(c[i]) {
            Some(d) => d,
            None => 0,
        };
        n = n * 16 + d as u64;
        i += 1;
    }
    assert(all.take(i - from) =~= all);
    n as u32
}

/// What a text that is no interface identifier is answered.
pub open spec fn not_a_guid(text: Seq<char>) -> Seq<char> {
    "not an interface GUID: "@ + text
}

fn inside_braces(text: &str) -> (r: String)
    ensures
        r@ == unclosed(unopened(trimmed(text@))),
{
    let t = trim(text);
    let c: Vec<char> = chars_of(t.as_str());
    let n: usize = c.len();
    let mut from: usize = 0;
    assert(t@.skip(0) =~= t@);
    while from < n && c[from] == '{'
        invariant
            c@ == t@,
            n == c@.len(),
            from <= n,
            unopened(t@.skip(from as int)) == unopened(t@),
        decreases n - from,
    {
        assert(t@.skip(from as int).drop_first() =~= t@.skip(from + 1));
        from += 1;
    }
    let mut to: usize = n;
    let ghost front = t@.skip(from as int);
    assert(front =~= t@.subrange(from as int, to as int));
    while from < to && c[to - 1] == '}'
        invariant
            c@ == t@,
            n == c@.len(),
            from <= to <= n,
            unclosed(t@.subrange(from as int, to as int)) == unclosed(front),
        decreases to - from,
    {
        assert(t@.subrange(from as int, to as int).drop_last() =~= t@.subrange(
            from as int,
            to - 1,
        ));
        to -= 1;
    }
    text_of(&c, from, to)
}

/// Reads an interface identifier. The braces are optional, and nothing but hexadecimal digits is
/// taken between the hyphens.
pub fn parse_guid(text: &str) -> (r: Result<Guid, String>)
    ensures
        match r {
            Ok(g) => guid_shaped(guid_groups(text@)) && guid_is(g, guid_groups(text@)),
            Err(e) => !guid_shaped(guid_groups(text@)) && e@ == not_a_guid(text@),
        },
{
    let mut hyphen: Vec<char> = Vec::new();
    hyphen.push('-');
    assert(hyphen@ =~= seq!['-']);
    let groups: Vec<String> = split(inside_braces(text).as_str(), &hyphen);
    let ghost g = guid_groups(text@);
    assert(texts(groups@).len() == groups@.len());
    if groups.len() == 5 {
        assert(g[0] == groups@[0]@ && g[1] == groups@[1]@ && g[2] == groups@[2]@ && g[3]
            == groups@[3]@ && g[4] == groups@[4]@);
        let a: Vec<char> = chars_of(groups[0].as_str());
        let b: Vec<char> = chars_of(groups[1].as_str());
        let c: Vec<char> = chars_of(groups[2].as_str());
        let d: Vec<char> = chars_of(groups[3].as_str());
        let e: Vec<char> = chars_of(groups[4].as_str());
        if hex_digits(&a, 8) && hex_digits(&b, 4) && hex_digits(&c, 4) && hex_digits(&d, 4)
            && hex_digits(&e, 12) {
            let data4: [u8; 8] = [
                hex_value(&d, 0, 2) as u8,
                hex_value(&d, 2, 4) as u8,
                hex_value(&e, 0, 2) as u8,
                hex_value(&e, 2, 4) as u8,
                hex_value(&e, 4, 6) as u8,
                hex_value(&e, 6, 8) as u8,
                hex_value(&e, 8, 10) as u8,
                hex_value(&e, 10, 12) as u8,
            ];
            let guid = Guid {
                data1: hex_value(&a, 0, 8),
                data2: hex_value(&b, 0, 4) as u16,
                data3: hex_value(&c, 0, 4) as u16,
                data4,
            };
            proof {
                assert(a@.subrange(0, 8) =~= g[0]);
                assert(b@.subrange(0, 4) =~= g[1]);
                assert(c@.subrange(0, 4) =~= g[2]);
                let tail = g[3] + g[4];
                assert(tail.subrange(0, 2) =~= d@.subrange(0, 2));
                assert(tail.subrange(2, 4) =~= d@.subrange(2, 4));
                assert(tail.subrange(4, 6) =~= e@.subrange(0, 2));
                assert(tail.subrange(6, 8) =~= e@.subrange(2, 4));
                assert(tail.subrange(8, 10) =~= e@.subrange(4, 6));
                assert(tail.subrange(10, 12) =~= e@.subrange(6, 8));
                assert(tail.subrange(12, 14) =~= e@.subrange(8, 10));
                assert(tail.subrange(14, 16) =~= e@.subrange(10, 12));
                assert forall|i: int| 0 <= i < 8 implies number(
                    tail.subrange(2 * i, 2 * i + 2),
                    16,
                ) == Some(#[trigger] guid.data4@[i] as int) by {
                    assert(i == 0 || i == 1 || i == 2 || i == 3 || i == 4 || i == 5 || i == 6 || i
                        == 7);
                }
            }
            return Ok(guid);
        }
    }
    let mut out = "not an interface GUID: ".to_owned();
    out.append(text);
    Err(out)
}

/// Where the registry keeps an adapter's DNS-over-HTTPS entries.
pub open spec fn doh_path(guid: Seq<char>, family: Family) -> Seq<char> {
    "SYSTEM\\CurrentControlSet\\Services\\Dnscache\\InterfaceSpecificParameters\\"@ + guid
        + "\\DohInterfaceSettings\\"@ + (match family {
        Family::V4 => "Doh"@,
        Family::V6 => "Doh6"@,
    })
}

/// Where the registry keeps an adapter's DNS-over-HTTPS entries.
pub fn doh_key_path(guid: &str, family: Family) -> (r: String)
    ensures
        r@ == doh_path(guid@, family),
{
    let mut out =
        "SYSTEM\\CurrentControlSet\\Services\\Dnscache\\InterfaceSpecificParameters\\".to_owned();
    out.append(guid);
    out.append("\\DohInterfaceSettings\\");
    out.append(
        match family {
            Family::V4 => "Doh",
            Family::V6 => "Doh6",
        },
    );
    out
}

/// Where the registry keeps one DNS-over-HTTPS entry.
pub fn doh_entry_path(guid: &str, family: Family, server: &str) -> (r: String)
    ensures
        r@ == doh_path(guid@, family) + "\\"@ + server@,
{
    let mut out = doh_key_path(guid, family);
    out.append("\\");
    out.append(server);
    out
}

/// A DNS-over-HTTPS entry of an adapter: the server it is for, its flags, and its template where it
/// carries one of its own.
#[derive(Debug)]
pub struct DohEntry {
    pub server: String,
    pub flags: u64,
    pub template: Option<String>,
}

/// The kinds of registry values that flags are read from.
#[derive(Clone, Copy, Debug, PartialEq, Eq, Structural)]
pub enum RegKind {
    Dword,
    Qword,
    Other,
}

/// The number that bytes write, low byte first.
pub open spec fn little_endian(b: Seq<u8>) -> int
    decreases b.len(),
{
    if b.len() == 0 {
        0
    } else {
        b[0] + 256 * little_endian(b.skip(1))
    }
}

/// The flags that a registry value holds: eight bytes of a QWORD, or four of a DWORD.
pub open spec fn flags_of(kind: RegKind, bytes: Seq<u8>) -> Option<int> {
    if kind == RegKind::Qword && bytes.len() == 8 || kind == RegKind::Dword && bytes.len() == 4 {
        Some(little_endian(bytes))
    } else {
        None
    }
}

proof fn lemma_little_endian_bound(b: Seq<u8>)
    ensures
        0 <= little_endian(b) < sixteens(2 * b.len()),
    decreases b.len(),
{
    reveal_with_fuel(sixteens, 3);
    if b.len() > 0 {
        lemma_little_endian_bound(b.skip(1));
        let n = 2 * b.skip(1).len();
        assert(sixteens(n + 2) == 256 * sixteens(n));
    }
}

proof fn lemma_sixteens()
    ensures
        sixteens(16) == 0x1_0000_0000_0000_0000,
{
    reveal_with_fuel(sixteens, 17);
}

fn read_little_endian(b: &Vec<u8>) -> (r: u64)
    requires
        b@.len() <= 8,
    ensures
        r as int == little_endian(b@),
{
    let mut n: u64 = 0;
    let mut i: usize = b.len();
    assert(b@.skip(i as int) =~= Seq::<u8>::empty());
    while i > 0
        invariant
            i <= b@.len() <= 8,
            n as int == little_endian(b@.skip(i as int)),
        decreases i,
    {
        i -= 1;
        proof {
            let rest = b@.skip(i as int);
            assert(rest.skip(1) =~= b@.skip(i + 1));
            assert(rest[0] == b@[i as int]);
            lemma_little_endian_bound(rest);
            lemma_sixteens();
            lemma_sixteens_grow(2 * rest.len(), 16);
        }
        n = n * 256 + b[i] as u64;
    }
    assert(b@.skip(0) =~= b@);
    n
}

proof fn lemma_sixteens_grow(a: nat, b: nat)
    requires
        a <= b,
    ensures
        sixteens(a) <= sixteens(b),
    decreases b - a,
{
    if a < b {
        lemma_sixteens_grow(a, (b - 1) as nat);
    }
}

/// A DNS-over-HTTPS entry as the registry holds it; none where its flags cannot be read.
pub fn read_doh_entry(
    server: String,
    flags: Option<(RegKind, Vec<u8>)>,
    template: Option<String>,
) -> (r: Option<DohEntry>)
    ensures
        ({
            let read = match flags {
                Some((kind, bytes)) => flags_of(kind, bytes@),
                None => None,
            };
            match r {
                Some(e) => e.server == server && e.template == template && read == Some(
                    e.flags as int,
                ),
                None => read is None,
            }
        }),
{
    match flags {
        Some((kind, bytes)) => {
            if (kind == RegKind::Qword && bytes.len() == 8) || (kind == RegKind::Dword
                && bytes.len() == 4) {
                return Some(DohEntry { server, flags: read_little_endian(&bytes), template });
            }
            None
        },
        None => None,
    }
}

/// What a call that sets an adapter's servers and turns on their encryption is given.
#[derive(Debug)]
pub struct EncryptedDns {
    pub interface: Guid,
    /// The servers, with commas between them, in UTF-16 with a zero behind it.
    pub name_server: Vec<u16>,
    /// How many servers there are; each is encrypted with the template that Windows knows for it.
    pub servers: usize,
    /// Which parts of the settings the call sets.
    pub flags: u64,
}

pub const DNS_SETTING_IPV6: u64 = 0x0001;

pub const DNS_SETTING_NAMESERVER: u64 = 0x0002;

pub const DNS_SETTING_DOH: u64 = 0x1000;

/// Prepares the call that points one family of an adapter at servers and turns on their encryption.
/// There has to be a server, and the adapter's identifier has to be one.
pub fn set_dns_encrypted(guid: &str, family: Family, servers: &Vec<String>) -> (r: Result<
    EncryptedDns,
    String,
>)
    ensures
        match r {
            Ok(d) => {
                &&& servers@.len() > 0
                &&& guid_shaped(guid_groups(guid@))
                &&& guid_is(d.interface, guid_groups(guid@))
                &&& d.name_server@ == utf16(joined(texts(servers@), ","@)).push(0)
                &&& d.servers == servers@.len()
                &&& d.flags == (if family == Family::V6 {
                    0x1003u64
                } else {
                    0x1002
                })
            },
            Err(e) => if servers@.len() == 0 {
                e@ == "encrypted DNS needs at least one server"@
            } else {
                !guid_shaped(guid_groups(guid@)) && e@ == not_a_guid(guid@)
            },
        },
{
    if servers.len() == 0 {
        return Err("encrypted DNS needs at least one server".to_owned());
    }
    let interface: Guid = match parse_guid(guid) {
        Ok(g) => g,
        Err(e) => return Err(e),
    };
    let mut flags: u64 = DNS_SETTING_NAMESERVER + DNS_SETTING_DOH;
    if family == Family::V6 {
        flags = flags + DNS_SETTING_IPV6;
    }
    Ok(
        EncryptedDns {
            interface,
            name_server: wide(join(servers, ",").as_str()),
            servers: servers.len(),
            flags,
        },
    )
}

/// What a failed attempt to turn on encryption says.
pub fn encryption_error(family: Family, servers: &Vec<String>, code: u32) -> (r: String)
    ensures
        r@ == "SetInterfaceDnsSettings ("@ + family.context() + ", "@ + joined(
            texts(servers@),
            ", "@,
        ) + ") failed with code "@ + decimal(code as nat),
{
    let mut out = "SetInterfaceDnsSettings (".to_owned();
    out.append(family.netsh_context());
    out.append(", ");
    out.append(join(servers, ", ").as_str());
    out.append(") failed with code ");
    push_decimal(&mut out, code as u64);
    out
}

proof fn lemma_blank_front(s: Seq<char>)
    ensures
        trimmed_front(s).len() == 0 <==> forall|i: int| 0 <= i < s.len() ==> white(#[trigger] s[i]),
        trimmed_front(s).len() > 0 ==> !white(trimmed_front(s)[0]),
    decreases s.len(),
{
    if s.len() > 0 && white(s.first()) {
        let less = s.drop_first();
        lemma_blank_front(less);
        assert(forall|i: int| 0 <= i < less.len() ==> less[i] == s[i + 1]);
        assert forall|i: int| 0 <= i < s.len() && trimmed_front(s).len() == 0 implies white(
            #[trigger] s[i],
        ) by {
            if i > 0 {
                assert(white(less[i - 1]));
            }
        }
    }
}

proof fn lemma_blank_back(s: Seq<char>)
    ensures
        trimmed_back(s).len() == 0 <==> forall|i: int| 0 <= i < s.len() ==> white(#[trigger] s[i]),
    decreases s.len(),
{
    if s.len() > 0 && white(s.last()) {
        let less = s.drop_last();
        lemma_blank_back(less);
        assert(forall|i: int| 0 <= i < less.len() ==> less[i] == s[i]);
        assert forall|i: int| 0 <= i < s.len() && trimmed_back(s).len() == 0 implies white(
            #[trigger] s[i],
        ) by {
            if i < s.len() - 1 {
                assert(white(less[i]));
            }
        }
    }
}

/// Whether a text holds something besides white space.
pub open spec fn says_something(s: Seq<char>) -> bool {
    exists|i: int| 0 <= i < s.len() && !white(#[trigger] s[i])
}

proof fn lemma_blank(s: Seq<char>)
    ensures
        trimmed(s).len() > 0 <==> says_something(s),
{
    lemma_blank_front(s);
    lemma_blank_back(trimmed_front(s));
    if says_something(s) {
        assert(trimmed_front(s).len() > 0);
        assert(!white(trimmed_front(s)[0]));
    }
}

proof fn lemma_entries_are_filtered(p: Seq<Seq<char>>)
    ensures
        entries(p) == p.filter(|t: Seq<char>| says_something(t)).map_values(
            |t: Seq<char>| trimmed(t),
        ),
    decreases p.len(),
{
    reveal(Seq::filter);
    let yes = |t: Seq<char>| says_something(t);
    let cut = |t: Seq<char>| trimmed(t);
    if p.len() > 0 {
        let rest = p.drop_last();
        lemma_entries_are_filtered(rest);
        lemma_blank(p.last());
        assert(rest.filter(yes).push(p.last()).map_values(cut) =~= rest.filter(yes).map_values(
            cut,
        ).push(cut(p.last())));
    } else {
        assert(entries(p) =~= p.filter(yes).map_values(cut));
    }
}

proof fn lemma_entries_of_a_sum(a: Seq<Seq<char>>, b: Seq<Seq<char>>)
    ensures
        entries(a + b) == entries(a) + entries(b),
    decreases b.len(),
{
    if b.len() == 0 {
        assert(a + b =~= a);
        assert(entries(a) + entries(b) =~= entries(a));
    } else {
        lemma_entries_of_a_sum(a, b.drop_last());
        assert((a + b).drop_last() =~= a + b.drop_last());
        assert((a + b).last() == b.last());
        assert(entries(a + b) =~= entries(a) + entries(b));
    }
}

/// A value that is recorded for an adapter lists servers with commas, semicolons or blanks between
/// them. Anything in it besides those and white space makes the setting a fixed list, with a server for
/// each piece that says something, in their order and without the white space round them; where
/// nothing else is in it, or no value is there, the setting is the automatic one.
pub proof fn law_recorded_lists(v: Seq<char>)
    ensures
        recorded_state(None) == StateView::Dhcp,
        (exists|i: int|
            0 <= i < v.len() && !white(#[trigger] v[i]) && v[i] != ',' && v[i] != ';') ==> (
        recorded_state(Some(v)) matches StateView::Static(list) && list.len() > 0 && list == pieces(
            v,
            seq![',', ' ', ';'],
        ).filter(|t: Seq<char>| says_something(t)).map_values(|t: Seq<char>| trimmed(t))
            && list.len() == pieces(v, seq![',', ' ', ';']).filter(
            |t: Seq<char>| says_something(t),
        ).len()),
        (forall|i: int|
            0 <= i < v.len() ==> white(#[trigger] v[i]) || v[i] == ',' || v[i] == ';') ==> recorded_state(Some(v)) == StateView::Dhcp,
{
    let seps = seq![',', ' ', ';'];
    let p = pieces(v, seps);
    let yes = |t: Seq<char>| says_something(t);
    lemma_entries_are_filtered(p);
    law_white_space(' ');
    assert(seps[0] == ',' && seps[1] == ' ' && seps[2] == ';');
    if exists|i: int| 0 <= i < v.len() && !white(#[trigger] v[i]) && v[i] != ',' && v[i] != ';' {
        let i = choose|i: int|
            0 <= i < v.len() && !white(#[trigger] v[i]) && v[i] != ',' && v[i] != ';';
        let (k, j) = lemma_in_a_piece(v, seps, i);
        assert(!white(p[k][j]));
        assert(says_something(p[k]));
        assert(p.filter(yes).contains(p[k])) by {
            p.lemma_filter_contains(yes, k);
        }
        assert(p.filter(yes).len() > 0);
    }
    if forall|i: int| 0 <= i < v.len() ==> white(#[trigger] v[i]) || v[i] == ',' || v[i] == ';' {
        lemma_only_blank_pieces(v, seps);
    }
}

proof fn lemma_only_blank_pieces(v: Seq<char>, seps: Seq<char>)
    requires
        seps == seq![',', ' ', ';'],
        forall|i: int| 0 <= i < v.len() ==> white(#[trigger] v[i]) || v[i] == ',' || v[i] == ';',
    ensures
        listed_servers(v).len() == 0,
        forall|i: int| 0 <= i < pieces(v, seps).last().len() ==> white(
            #[trigger] pieces(v, seps).last()[i],
        ),
    decreases v.len(),
{
    reveal_with_fuel(entries, 2);
    if v.len() == 0 {
        lemma_blank(Seq::empty());
    } else {
        let front = v.drop_last();
        assert forall|i: int| 0 <= i < front.len() implies white(#[trigger] front[i]) || front[i]
            == ',' || front[i] == ';' by {
            assert(front[i] == v[i]);
        }
        lemma_only_blank_pieces(front, seps);
        lemma_pieces_not_empty(front, seps);
        let before = pieces(front, seps);
        let now = pieces(v, seps);
        let c = v[v.len() - 1];
        assert(c == v.last());
        assert(seps[0] == ',' && seps[1] == ' ' && seps[2] == ';');
        if seps.contains(c) {
            assert(now.drop_last() =~= before);
            lemma_blank(Seq::empty());
        } else {
            assert(now.drop_last() =~= before.drop_last());
            assert(white(c));
            assert forall|i: int| 0 <= i < now.last().len() implies white(
                #[trigger] now.last()[i],
            ) by {
                if i < before.last().len() {
                    assert(now.last()[i] == before.last()[i]);
                }
            }
            lemma_blank(now.last());
            lemma_blank(before.last());
        }
    }
}

/// Servers that are recorded with a separator between them are the servers on the one side and then
/// those on the other; and a text without separators and white space is the one server that it lists.
pub proof fn law_recorded_servers(a: Seq<char>, c: char, b: Seq<char>)
    ensures
        c == ',' || c == ' ' || c == ';' ==> listed_servers(a.push(c) + b) == listed_servers(a)
            + listed_servers(b),
        a.len() > 0 && (forall|i: int|
            0 <= i < a.len() ==> !white(#[trigger] a[i]) && a[i] != ',' && a[i] != ';') ==> (
        listed_servers(a) == seq![a] && recorded_state(Some(a)) == StateView::Static(seq![a])),
        listed_servers(a).len() > 0 ==> recorded_state(Some(a)) == StateView::Static(
            listed_servers(a),
        ),
        listed_servers(a).len() == 0 ==> recorded_state(Some(a)) == StateView::Dhcp,
{
    let seps = seq![',', ' ', ';'];
    assert(seps[0] == ',' && seps[1] == ' ' && seps[2] == ';');
    law_separators_part_pieces(a, c, b, seps);
    lemma_entries_of_a_sum(pieces(a, seps), pieces(b, seps));
    law_white_space(' ');
    if a.len() > 0 && (forall|i: int|
        0 <= i < a.len() ==> !white(#[trigger] a[i]) && a[i] != ',' && a[i] != ';') {
        assert forall|i: int| 0 <= i < a.len() implies !seps.contains(#[trigger] a[i]) by {
            assert(!white(a[i]));
        }
        let none = Seq::<char>::empty();
        assert(!white(a[0]) && !white(a[a.len() - 1]));
        law_trimming_takes_the_ends_off(none, a, none);
        reveal_with_fuel(entries, 2);
        assert(seq![a].drop_last() =~= Seq::<Seq<char>>::empty());
        assert(entries(seq![a]) =~= seq![a]);
    }
}

/// Each of the calls that give an adapter its servers names the adapter by its index and the family by
/// the context of its own; the first sets the server that is first in the list, and each other adds one
/// server behind those that are there, at its own place in the list, so that the adapter has them in
/// their order. No call asks Windows to try the server out.
pub proof fn law_calls_for_servers(index: u32, family: Family, servers: Seq<Seq<char>>, i: int)
    requires
        0 <= i < servers.len(),
    ensures
        static_calls(index, family, servers).len() == servers.len(),
        static_calls(index, family, servers)[i].len() == 8,
        static_calls(index, family, servers)[i][0] == "interface"@,
        static_calls(index, family, servers)[i][1] == (match family {
            Family::V4 => "ipv4"@,
            Family::V6 => "ipv6"@,
        }),
        static_calls(index, family, servers)[i][2] == (if i == 0 {
            "set"@
        } else {
            "add"@
        }),
        static_calls(index, family, servers)[i][3] == "dnsservers"@,
        static_calls(index, family, servers)[i][4] == "name="@ + decimal(index as nat),
        i == 0 ==> static_calls(index, family, servers)[i][5] == "source=static"@
            && static_calls(index, family, servers)[i][6] == "address="@ + servers[i],
        i > 0 ==> static_calls(index, family, servers)[i][5] == "address="@ + servers[i]
            && static_calls(index, family, servers)[i][6] == "index="@ + decimal((i + 1) as nat),
        static_calls(index, family, servers)[i][7] == "validate=no"@,
{
}

/// Where there is no server, the one call clears the list; and the automatic setting is one call of its
/// own. Both name the adapter and the family as the calls for servers do.
pub proof fn law_calls_without_servers(index: u32, family: Family, servers: Seq<Seq<char>>)
    ensures
        static_calls(index, family, Seq::empty()) == seq![
            seq![
                "interface"@,
                if family == Family::V4 {
                    "ipv4"@
                } else {
                    "ipv6"@
                },
                "set"@,
                "dnsservers"@,
                "name="@ + decimal(index as nat),
                "source=static"@,
                "address="@ + "none"@,
                "validate=no"@,
            ],
        ],
        state_calls(index, family, StateView::Dhcp) == seq![
            seq![
                "interface"@,
                if family == Family::V4 {
                    "ipv4"@
                } else {
                    "ipv6"@
                },
                "set"@,
                "dnsservers"@,
                "name="@ + decimal(index as nat),
                "source=dhcp"@,
            ],
        ],
        state_calls(index, family, StateView::Static(servers)) == static_calls(
            index,
            family,
            servers,
        ),
{
}

/// A server's template is registered with encryption forced and without a way back to plain queries,
/// looked up and removed, each by the server's own address.
pub proof fn law_template_calls(server: Seq<char>, template: Seq<char>)
    ensures
        template_args(server, template).len() == 7,
        template_args(server, template).take(3) == seq!["dns"@, "add"@, "encryption"@],
        template_args(server, template)[3] == "server="@ + server,
        template_args(server, template)[4] == "dohtemplate="@ + template,
        template_args(server, template)[5] == "autoupgrade=yes"@,
        template_args(server, template)[6] == "udpfallback=no"@,
        untemplate_args(server).take(3) == seq!["dns"@, "delete"@, "encryption"@],
        show_template_args(server).take(3) == seq!["dns"@, "show"@, "encryption"@],
        untemplate_args(server).skip(3) == seq!["server="@ + server],
        show_template_args(server).skip(3) == seq!["server="@ + server],
{
}

proof fn lemma_first_mark(hay: Seq<char>, marks: Seq<Seq<char>>, i: int, k: int)
    requires
        0 <= i <= k <= marks.len(),
        forall|j: int| i <= j < k ==> !holds(hay, #[trigger] marks[j]),
    ensures
        k < marks.len() && holds(hay, marks[k]) ==> first_mark(hay, marks, i) == Some(marks[k]),
        k == marks.len() ==> first_mark(hay, marks, i) is None,
    decreases k - i,
{
    if i < k {
        lemma_first_mark(hay, marks, i + 1, k);
    }
}

/// What an adapter is taken for, by the letters of its name and description and by its type: a loopback
/// is virtual; then the first in a list of marks of virtual adapters that occurs decides, then the first
/// in a list of marks of tunnels; an adapter without a mark is a tunnel where its type says so, and a
/// physical one otherwise.
pub proof fn law_kinds_of_adapters(hay: Seq<char>, if_type: u32, k: int)
    ensures
        ({
            let virtuals = seq![
                "vethernet"@,
                "hyper-v"@,
                "vmware"@,
                "virtualbox"@,
                "vbox"@,
                "wsl"@,
                "docker"@,
                "loopback"@,
                "wi-fi direct"@,
                "wifi direct"@,
                "microsoft wi-fi direct"@,
                "teredo"@,
                "isatap"@,
                "bluetooth"@,
                "npcap"@,
                "packet scheduler"@,
            ];
            let tunnels = seq![
                "wireguard"@,
                "wintun"@,
                "openvpn"@,
                "tap-windows"@,
                "tap adapter"@,
                "tailscale"@,
                "zerotier"@,
                "anyconnect"@,
                "nordlynx"@,
                "globalprotect"@,
                "pangp"@,
                "forticlient"@,
                "amnezia"@,
                "mullvad"@,
                "proton"@,
                "outline"@,
                "wan miniport"@,
                "softether"@,
                "hamachi"@,
            ];
            let is_virtual = exists|j: int| 0 <= j < 16 && holds(hay, #[trigger] virtuals[j]);
            let is_tunnel = exists|j: int| 0 <= j < 19 && holds(hay, #[trigger] tunnels[j]);
            &&& if_type == 24 ==> kind_by(hay, if_type) == KindView::Virtual("loopback"@)
            &&& if_type != 24 ==> {
                &&& 0 <= k < 16 && holds(hay, virtuals[k]) && (forall|j: int|
                    0 <= j < k ==> !holds(hay, #[trigger] virtuals[j])) ==> kind_by(hay, if_type)
                    == KindView::Virtual(virtuals[k])
                &&& !is_virtual && 0 <= k < 19 && holds(hay, tunnels[k]) && (forall|j: int|
                    0 <= j < k ==> !holds(hay, #[trigger] tunnels[j])) ==> kind_by(hay, if_type)
                    == KindView::Vpn(tunnels[k])
                &&& !is_virtual && !is_tunnel && (if_type == 131 || if_type == 23) ==> kind_by(
                    hay,
                    if_type,
                ) == KindView::Vpn("ifType "@ + decimal(if_type as nat))
                &&& !is_virtual && !is_tunnel && if_type != 131 && if_type != 23 ==> kind_by(
                    hay,
                    if_type,
                ) == KindView::Physical
            }
        }),
{
    let v = virtual_marks();
    let t = vpn_marks();
    if forall|j: int| 0 <= j < 16 ==> !holds(hay, #[trigger] v[j]) {
        lemma_first_mark(hay, v, 0, 16);
    }
    if forall|j: int| 0 <= j < 19 ==> !holds(hay, #[trigger] t[j]) {
        lemma_first_mark(hay, t, 0, 19);
    }
    if 0 <= k < 16 && forall|j: int| 0 <= j < k ==> !holds(hay, #[trigger] v[j]) {
        lemma_first_mark(hay, v, 0, k);
    }
    if 0 <= k < 19 && forall|j: int| 0 <= j < k ==> !holds(hay, #[trigger] t[j]) {
        lemma_first_mark(hay, t, 0, k);
    }
}

/// Which adapters are configured, told by their own state: one that is up, has a default route of either
/// family and is physical always is; a virtual one never is; a tunnel is where tunnels were asked for.
/// An adapter that is passed over is named with the reason that holds of it, the missing route first.
pub proof fn law_reasons_to_pass_over(a: Adapter, include_vpn: bool)
    ensures
        !a.gateway_v4 && !a.gateway_v6 ==> skip_reason(a, include_vpn) == Some(
            "нет шлюза по умолчанию"@,
        ),
        a.gateway_v4 || a.gateway_v6 ==> {
            let kind = kind_by(lowered(a.alias@ + " "@ + a.description@), a.if_type);
            &&& kind is Physical ==> skip_reason(a, include_vpn) is None
            &&& kind matches KindView::Virtual(m) ==> skip_reason(a, include_vpn) == Some(
                "виртуальный адаптер ("@ + m + ")"@,
            )
            &&& kind is Vpn && include_vpn ==> skip_reason(a, include_vpn) is None
            &&& kind matches KindView::Vpn(m) ==> !include_vpn ==> skip_reason(a, include_vpn)
                == Some("VPN/туннель ("@ + m + ") — включается в настройках"@)
        },
{
}

/// Two spellings are of one address exactly where both are addresses, and the same one; white space
/// round them does not count.
pub proof fn law_one_address_in_two_spellings(a: Seq<char>, b: Seq<char>, x: IpAddr, y: IpAddr)
    ensures
        one_address(a, b) ==> one_address(b, a),
        ip_of(trimmed(a)) is None ==> !one_address(a, b),
        ip_of(trimmed(a)) == Some(x) && ip_of(trimmed(b)) == Some(y) ==> (one_address(a, b) <==> x
            == y),
{
}

proof fn lemma_number_of_hex_digits(n: nat, width: nat)
    requires
        n < sixteens(width),
    ensures
        number(crate::text::hex_digits(n, width), 16) == Some(n as int),
        crate::text::hex_digits(n, width).len() == width,
        all_hex(crate::text::hex_digits(n, width)),
    decreases width,
{
    let s = crate::text::hex_digits(n, width);
    if width > 0 {
        let less = (width - 1) as nat;
        lemma_number_of_hex_digits(n / 16, less);
        let front = crate::text::hex_digits(n / 16, less);
        let d = (n % 16) as int;
        assert(s.drop_last() =~= front);
        assert(digit_value(crate::text::digit(d), 16) == Some(d));
        assert forall|i: int| 0 <= i < s.len() implies digit_value(#[trigger] s[i], 16) is Some by {
            if i < less {
                assert(s[i] == front[i]);
            }
        }
    }
}

proof fn lemma_bytes_written(a: u8)
    ensures
        number(crate::text::hex_digits(a as nat, 2), 16) == Some(a as int),
        all_hex(crate::text::hex_digits(a as nat, 2)),
        crate::text::hex_digits(a as nat, 2).len() == 2,
{
    reveal_with_fuel(sixteens, 3);
    lemma_number_of_hex_digits(a as nat, 2);
}


/// An identifier in digits: 8, 4, 4, 4 and 12 of them with hyphens between, the last sixteen two for
/// each of eight bytes.
pub open spec fn written_guid(g: Guid) -> Seq<char> {
    crate::text::hex_digits(g.data1 as nat, 8).push('-') + crate::text::hex_digits(
        g.data2 as nat,
        4,
    ).push('-') + crate::text::hex_digits(g.data3 as nat, 4).push('-') + crate::text::hex_digits(
        g.data4@[0] as nat,
        2,
    ) + crate::text::hex_digits(g.data4@[1] as nat, 2).push('-') + crate::text::hex_digits(
        g.data4@[2] as nat,
        2,
    ) + crate::text::hex_digits(g.data4@[3] as nat, 2) + crate::text::hex_digits(
        g.data4@[4] as nat,
        2,
    ) + crate::text::hex_digits(g.data4@[5] as nat, 2) + crate::text::hex_digits(
        g.data4@[6] as nat,
        2,
    ) + crate::text::hex_digits(g.data4@[7] as nat, 2)
}

proof fn lemma_no_hyphen(s: Seq<char>)
    requires
        all_hex(s),
    ensures
        !s.contains('-'),
        forall|i: int| 0 <= i < s.len() ==> #[trigger] s[i] != '{' && s[i] != '}' && !white(s[i]),
{
    assert forall|i: int| 0 <= i < s.len() implies #[trigger] s[i] != '{' && s[i] != '}' && !white(
        s[i],
    ) && s[i] != '-' by {
        assert(digit_value(s[i], 16) is Some);
    }
}

/// An identifier that was written, in braces or without, is read as itself; and no text is read as two
/// different ones.
#[verifier::rlimit(40)]
pub proof fn law_written_identifiers_read_back(g: Guid, other: Guid)
    ensures
        guid_shaped(guid_groups(written_guid(g))),
        guid_is(g, guid_groups(written_guid(g))),
        guid_shaped(guid_groups(seq!['{'] + written_guid(g) + seq!['}'])),
        guid_is(g, guid_groups(seq!['{'] + written_guid(g) + seq!['}'])),
        guid_is(other, guid_groups(written_guid(g))) ==> other.data1 == g.data1 && other.data2
            == g.data2 && other.data3 == g.data3 && other.data4@ == g.data4@,
{
    let d = g.data4@;
    let a = crate::text::hex_digits(g.data1 as nat, 8);
    let b = crate::text::hex_digits(g.data2 as nat, 4);
    let c = crate::text::hex_digits(g.data3 as nat, 4);
    let x0 = crate::text::hex_digits(d[0] as nat, 2);
    let x1 = crate::text::hex_digits(d[1] as nat, 2);
    let x2 = crate::text::hex_digits(d[2] as nat, 2);
    let x3 = crate::text::hex_digits(d[3] as nat, 2);
    let x4 = crate::text::hex_digits(d[4] as nat, 2);
    let x5 = crate::text::hex_digits(d[5] as nat, 2);
    let x6 = crate::text::hex_digits(d[6] as nat, 2);
    let x7 = crate::text::hex_digits(d[7] as nat, 2);
    let e = x0 + x1;
    let f = x2 + x3 + x4 + x5 + x6 + x7;
    assert(sixteens(4) == 0x10000 && sixteens(8) == 0x1_0000_0000) by {
        reveal_with_fuel(sixteens, 9);
    }
    lemma_number_of_hex_digits(g.data1 as nat, 8);
    lemma_number_of_hex_digits(g.data2 as nat, 4);
    lemma_number_of_hex_digits(g.data3 as nat, 4);
    lemma_bytes_written(d[0]);
    lemma_bytes_written(d[1]);
    lemma_bytes_written(d[2]);
    lemma_bytes_written(d[3]);
    lemma_bytes_written(d[4]);
    lemma_bytes_written(d[5]);
    lemma_bytes_written(d[6]);
    lemma_bytes_written(d[7]);
    lemma_hex_sum(x0, x1);
    lemma_hex_sum(x2, x3);
    lemma_hex_sum(x2 + x3, x4);
    lemma_hex_sum(x2 + x3 + x4, x5);
    lemma_hex_sum(x2 + x3 + x4 + x5, x6);
    lemma_hex_sum(x2 + x3 + x4 + x5 + x6, x7);
    lemma_no_hyphen(a);
    lemma_no_hyphen(b);
    lemma_no_hyphen(c);
    lemma_no_hyphen(e);
    lemma_no_hyphen(f);
    let w = written_guid(g);
    let p = seq![a, b, c, e, f];
    assert(w =~= a.push('-') + b.push('-') + c.push('-') + e.push('-') + f);
    lemma_five_groups(a, b, c, e, f);
    assert(w.len() == 36);
    assert(w[0] == a[0]);
    assert(w[35] == f[11]);
    let none = Seq::<char>::empty();
    law_trimming_takes_the_ends_off(none, w, none);
    assert(unopened(w) == w);
    assert(unclosed(w) == w);
    assert(guid_groups(w) == p);
    let braced = seq!['{'] + w + seq!['}'];
    law_trimming_takes_the_ends_off(none, braced, none);
    assert(braced.drop_first() =~= w.push('}'));
    assert(w.push('}')[0] == w[0]);
    reveal_with_fuel(unopened, 2);
    reveal_with_fuel(unclosed, 2);
    assert(unopened(braced) == w.push('}'));
    assert(w.push('}').drop_last() =~= w);
    assert(unclosed(w.push('}')) == w);
    assert(guid_groups(braced) == p);
    let tail = e + f;
    assert(tail.subrange(0, 2) =~= x0);
    assert(tail.subrange(2, 4) =~= x1);
    assert(tail.subrange(4, 6) =~= x2);
    assert(tail.subrange(6, 8) =~= x3);
    assert(tail.subrange(8, 10) =~= x4);
    assert(tail.subrange(10, 12) =~= x5);
    assert(tail.subrange(12, 14) =~= x6);
    assert(tail.subrange(14, 16) =~= x7);
    assert(p[3] + p[4] == tail);
    assert forall|i: int| 0 <= i < 8 implies number(tail.subrange(2 * i, 2 * i + 2), 16) == Some(
        #[trigger] d[i] as int,
    ) by {
        assert(i == 0 || i == 1 || i == 2 || i == 3 || i == 4 || i == 5 || i == 6 || i == 7);
    }
    if guid_is(other, p) {
        assert forall|i: int| 0 <= i < 8 implies other.data4@[i] == d[i] by {
            assert(number(tail.subrange(2 * i, 2 * i + 2), 16) == Some(other.data4@[i] as int));
            assert(number(tail.subrange(2 * i, 2 * i + 2), 16) == Some(d[i] as int));
        }
        assert(other.data4@ =~= d);
    }
}

proof fn lemma_hex_sum(a: Seq<char>, b: Seq<char>)
    requires
        all_hex(a),
        all_hex(b),
    ensures
        all_hex(a + b),
{
    assert forall|i: int| 0 <= i < (a + b).len() implies digit_value(
        #[trigger] (a + b)[i],
        16,
    ) is Some by {
        if i < a.len() {
            assert((a + b)[i] == a[i]);
        } else {
            assert((a + b)[i] == b[i - a.len()]);
        }
    }
}

proof fn lemma_five_groups(a: Seq<char>, b: Seq<char>, c: Seq<char>, d: Seq<char>, e: Seq<char>)
    requires
        !a.contains('-'),
        !b.contains('-'),
        !c.contains('-'),
        !d.contains('-'),
        !e.contains('-'),
    ensures
        pieces(a.push('-') + b.push('-') + c.push('-') + d.push('-') + e, seq!['-']) == seq![
            a,
            b,
            c,
            d,
            e,
        ],
{
    crate::text::lemma_one_piece(a, '-');
    crate::text::lemma_piece_added(a, '-', b);
    let s2 = a.push('-') + b;
    crate::text::lemma_piece_added(s2, '-', c);
    let s3 = s2.push('-') + c;
    crate::text::lemma_piece_added(s3, '-', d);
    let s4 = s3.push('-') + d;
    crate::text::lemma_piece_added(s4, '-', e);
    let s5 = s4.push('-') + e;
    assert(s5 =~= a.push('-') + b.push('-') + c.push('-') + d.push('-') + e);
    assert(seq![a].push(b).push(c).push(d).push(e) =~= seq![a, b, c, d, e]);
}

/// Where the registry keeps an adapter's settings: under the service of the family, by the adapter's
/// identifier; and its DNS-over-HTTPS entries under the resolver's own, by identifier and family.
pub proof fn law_places_in_the_registry(guid: Seq<char>)
    ensures
        settings_path(guid, Family::V4)
            == "SYSTEM\\CurrentControlSet\\Services\\Tcpip\\Parameters\\Interfaces\\"@ + guid,
        settings_path(guid, Family::V6)
            == "SYSTEM\\CurrentControlSet\\Services\\Tcpip6\\Parameters\\Interfaces\\"@ + guid,
        doh_path(guid, Family::V4)
            == "SYSTEM\\CurrentControlSet\\Services\\Dnscache\\InterfaceSpecificParameters\\"@ + guid
            + "\\DohInterfaceSettings\\Doh"@,
        doh_path(guid, Family::V6)
            == "SYSTEM\\CurrentControlSet\\Services\\Dnscache\\InterfaceSpecificParameters\\"@ + guid
            + "\\DohInterfaceSettings\\Doh6"@,
{
    reveal_strlit("SYSTEM\\CurrentControlSet\\Services\\");
    reveal_strlit("Tcpip");
    reveal_strlit("Tcpip6");
    reveal_strlit("\\Parameters\\Interfaces\\");
    reveal_strlit("SYSTEM\\CurrentControlSet\\Services\\Tcpip\\Parameters\\Interfaces\\");
    reveal_strlit("SYSTEM\\CurrentControlSet\\Services\\Tcpip6\\Parameters\\Interfaces\\");
    reveal_strlit("\\DohInterfaceSettings\\");
    reveal_strlit("Doh");
    reveal_strlit("Doh6");
    reveal_strlit("\\DohInterfaceSettings\\Doh");
    reveal_strlit("\\DohInterfaceSettings\\Doh6");
    assert("SYSTEM\\CurrentControlSet\\Services\\"@ + "Tcpip"@ + "\\Parameters\\Interfaces\\"@
        =~= "SYSTEM\\CurrentControlSet\\Services\\Tcpip\\Parameters\\Interfaces\\"@);
    assert("SYSTEM\\CurrentControlSet\\Services\\"@ + "Tcpip6"@ + "\\Parameters\\Interfaces\\"@
        =~= "SYSTEM\\CurrentControlSet\\Services\\Tcpip6\\Parameters\\Interfaces\\"@);
    let front = "SYSTEM\\CurrentControlSet\\Services\\Dnscache\\InterfaceSpecificParameters\\"@;
    assert(front + guid + "\\DohInterfaceSettings\\"@ + "Doh"@ =~= front + guid
        + "\\DohInterfaceSettings\\Doh"@);
    assert(front + guid + "\\DohInterfaceSettings\\"@ + "Doh6"@ =~= front + guid
        + "\\DohInterfaceSettings\\Doh6"@);
}

/// Flags are kept as a number of eight bytes or of four, the lowest byte first; a value of any other
/// kind or size holds none.
pub proof fn law_flags_are_little_endian(b: Seq<u8>, kind: RegKind)
    ensures
        kind == RegKind::Dword && b.len() == 4 ==> flags_of(kind, b) == Some(
            b[0] + b[1] * 0x100 + b[2] * 0x1_0000 + b[3] * 0x100_0000,
        ),
        kind == RegKind::Qword && b.len() == 8 ==> flags_of(kind, b) == Some(
            b[0] + b[1] * 0x100 + b[2] * 0x1_0000 + b[3] * 0x100_0000 + b[4] * 0x1_0000_0000 + b[5]
                * 0x100_0000_0000 + b[6] * 0x1_0000_0000_0000 + b[7] * 0x100_0000_0000_0000,
        ),
        !(kind == RegKind::Dword && b.len() == 4) && !(kind == RegKind::Qword && b.len() == 8)
            ==> flags_of(kind, b) is None,
{
    reveal_with_fuel(little_endian, 9);
}

/// A number in decimal digits is read as itself, a plus sign in front of it or not, up to the largest of
/// thirty-two bits.
pub proof fn law_numbers_are_read(n: nat, s: Seq<char>)
    ensures
        n <= 0xFFFF_FFFF ==> unsigned(decimal(n)) == Some(n as u32),
        n <= 0xFFFF_FFFF ==> unsigned(seq!['+'] + decimal(n)) == Some(n as u32),
        n > 0xFFFF_FFFF ==> unsigned(decimal(n)) is None,
        s.len() == 0 ==> unsigned(s) is None,
        s.len() > 0 && s[0] != '+' && number(s, 10) is None ==> unsigned(s) is None,
{
    crate::iptext::law_numbers_from_digits(s, '0', n);
    crate::text::law_decimal_digits(n, 0);
    let d = decimal(n);
    assert((seq!['+'] + d).skip(1) =~= d);
    if d[0] == '+' {
        assert(digit_value(d[0], 10) is None);
        crate::iptext::lemma_only_digits(d, 10, 0);
    }
}

/// What is said of a failed command: its exit code, and all that it said, in one line.
pub proof fn law_failures_in_one_line(code: i32, out: Seq<char>, err: Seq<char>)
    ensures
        failure_text(Some(code), out, err) == "exit Some("@ + signed(code as int) + "): "@ + replaced(
            trimmed(out + trimmed(err)),
            seq!['\r', '\n'],
            ' ',
        ),
        failure_text(None, out, err) == "exit None: "@ + replaced(
            trimmed(out + trimmed(err)),
            seq!['\r', '\n'],
            ' ',
        ),
{
    reveal_strlit("exit ");
    reveal_strlit("Some(");
    reveal_strlit(")");
    reveal_strlit(": ");
    reveal_strlit("None");
    reveal_strlit("exit Some(");
    reveal_strlit("): ");
    reveal_strlit("exit None: ");
    let rest = replaced(trimmed(out + trimmed(err)), seq!['\r', '\n'], ' ');
    assert("exit "@ + ("Some("@ + signed(code as int) + ")"@) + ": "@ + rest =~= "exit Some("@
        + signed(code as int) + "): "@ + rest);
    assert("exit "@ + "None"@ + ": "@ + rest =~= "exit None: "@ + rest);
}

/// What a failed call says: the whole command, and why it failed; and what is said of a text that is no
/// identifier.
pub proof fn law_failed_calls_in_words(args: Seq<Seq<char>>, cause: Seq<char>, text: Seq<char>)
    ensures
        netsh_failure(args, cause) == "netsh "@ + joined(args, " "@) + ": "@ + cause,
        not_a_guid(text) == "not an interface GUID: "@ + text,
        ERROR_BUFFER_OVERFLOW == 111,
        LIST_TRIES == 5,
        FIRST_BUFFER == 32768,
        IF_TYPE_PPP == 23,
        IF_TYPE_SOFTWARE_LOOPBACK == 24,
        IF_TYPE_TUNNEL == 131,
        DNS_SETTING_IPV6 == 1,
        DNS_SETTING_NAMESERVER == 2,
        DNS_SETTING_DOH == 0x1000,
{
}

/// Which texts are identifiers: five groups of 8, 4, 4, 4 and 12 characters, and every one of them a
/// hexadecimal digit. Braces round them do not count, however many there are.
pub proof fn law_shape_of_identifiers(g: Seq<Seq<char>>, s: Seq<char>)
    ensures
        guid_shaped(g) <==> g.len() == 5 && g[0].len() == 8 && g[1].len() == 4 && g[2].len() == 4
            && g[3].len() == 4 && g[4].len() == 12 && (forall|k: int, i: int|
            0 <= k < 5 && 0 <= i < g[k].len() ==> {
                let c = #[trigger] g[k][i];
                '0' <= c && c <= '9' || 'a' <= c && c <= 'f' || 'A' <= c && c <= 'F'
            }),
        unopened(seq!['{'] + s) == unopened(s),
        s.len() > 0 && s[0] != '{' ==> unopened(s) == s,
        unclosed(s + seq!['}']) == unclosed(s),
        s.len() > 0 && s[s.len() - 1] != '}' ==> unclosed(s) == s,
{
    assert((seq!['{'] + s).drop_first() =~= s);
    assert((s + seq!['}']).drop_last() =~= s);
    if guid_shaped(g) {
        assert forall|k: int, i: int| 0 <= k < 5 && 0 <= i < g[k].len() implies {
            let c = #[trigger] g[k][i];
            '0' <= c && c <= '9' || 'a' <= c && c <= 'f' || 'A' <= c && c <= 'F'
        } by {
            assert(k == 0 || k == 1 || k == 2 || k == 3 || k == 4);
            assert(digit_value(g[k][i], 16) is Some);
        }
    }
    if g.len() == 5 && (forall|k: int, i: int|
        0 <= k < 5 && 0 <= i < g[k].len() ==> {
            let c = #[trigger] g[k][i];
            '0' <= c && c <= '9' || 'a' <= c && c <= 'f' || 'A' <= c && c <= 'F'
        }) {
        assert forall|k: int| 0 <= k < 5 implies all_hex(#[trigger] g[k]) by {
            assert forall|i: int| 0 <= i < g[k].len() implies digit_value(
                #[trigger] g[k][i],
                16,
            ) is Some by {}
        }
        assert(all_hex(g[0]) && all_hex(g[1]) && all_hex(g[2]) && all_hex(g[3]) && all_hex(g[4]));
    }
}

/// A row of calls is over once one of them failed or all of them were made, and not before.
pub proof fn law_when_calls_are_over(run: Calls)
    requires
        run.wf(),
    ensures
        run.error is Some ==> run.over() && run.done < run.list@.len(),
        run.error is None && run.done < run.list@.len() ==> !run.over(),
        run.done == run.list@.len() ==> run.over() && run.error is None,
{
}

} // verus!
