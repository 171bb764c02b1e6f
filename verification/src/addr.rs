//! Internet addresses as plain values.

use vstd::prelude::*;

verus! {

/// An IPv4 address, octet by octet.
#[derive(Clone, Copy, Debug, PartialEq, Eq, Structural)]
pub struct Ipv4Addr {
    pub a: u8,
    pub b: u8,
    pub c: u8,
    pub d: u8,
}

/// An IPv6 address, sixteen bits at a time.
#[derive(Clone, Copy, Debug, PartialEq, Eq, Structural)]
pub struct Ipv6Addr {
    pub s0: u16,
    pub s1: u16,
    pub s2: u16,
    pub s3: u16,
    pub s4: u16,
    pub s5: u16,
    pub s6: u16,
    pub s7: u16,
}

/// An address of either family.
#[derive(Clone, Copy, Debug, PartialEq, Eq, Structural)]
pub enum IpAddr {
    V4(Ipv4Addr),
    V6(Ipv6Addr),
}

/// An address and a port.
#[derive(Clone, Copy, Debug, PartialEq, Eq, Structural)]
pub struct SocketAddr {
    pub ip: IpAddr,
    pub port: u16,
}

impl Ipv4Addr {
    /// The address with these octets.
    pub fn new(a: u8, b: u8, c: u8, d: u8) -> (r: Ipv4Addr)
        ensures
            r == (Ipv4Addr { a, b, c, d }),
    {
        Ipv4Addr { a, b, c, d }
    }
}

impl Ipv6Addr {
    /// The eight groups, first to last.
    pub open spec fn segments(self) -> Seq<u16> {
        seq![self.s0, self.s1, self.s2, self.s3, self.s4, self.s5, self.s6, self.s7]
    }

    /// The address with these groups.
    pub open spec fn of(s: Seq<u16>) -> Ipv6Addr {
        Ipv6Addr { s0: s[0], s1: s[1], s2: s[2], s3: s[3], s4: s[4], s5: s[5], s6: s[6], s7: s[7] }
    }

    /// The address with these groups.
    pub fn new(
        s0: u16,
        s1: u16,
        s2: u16,
        s3: u16,
        s4: u16,
        s5: u16,
        s6: u16,
        s7: u16,
    ) -> (r: Ipv6Addr)
        ensures
            r == (Ipv6Addr { s0, s1, s2, s3, s4, s5, s6, s7 }),
    {
        Ipv6Addr { s0, s1, s2, s3, s4, s5, s6, s7 }
    }

    /// The eight groups as a list.
    pub fn to_vec(&self) -> (r: Vec<u16>)
        ensures
            r@ == self.segments(),
    {
        let mut v: Vec<u16> = Vec::new();
        v.push(self.s0);
        v.push(self.s1);
        v.push(self.s2);
        v.push(self.s3);
        v.push(self.s4);
        v.push(self.s5);
        v.push(self.s6);
        v.push(self.s7);
        v
    }
}

/// Whether an IPv4 address could be a public resolver's: everything that is not reached from all
/// over the internet is refused, be it private, local, reserved, multicast, carrier-grade NAT, or set
/// aside for protocols (192.0.0.0/24), benchmarks (198.18.0.0/15) or documentation.
pub open spec fn public_v4(ip: Ipv4Addr) -> bool {
    &&& 0 < ip.a < 224
    &&& ip.a != 127
    &&& ip.a != 10
    &&& !(ip.a == 172 && 16 <= ip.b < 32)
    &&& !(ip.a == 192 && ip.b == 168)
    &&& !(ip.a == 169 && ip.b == 254)
    &&& !(ip.a == 100 && 64 <= ip.b < 128)
    &&& !(ip.a == 192 && ip.b == 0 && ip.c == 0)
    &&& !(ip.a == 198 && (ip.b == 18 || ip.b == 19))
    &&& !(ip.a == 192 && ip.b == 0 && ip.c == 2)
    &&& !(ip.a == 198 && ip.b == 51 && ip.c == 100)
    &&& !(ip.a == 203 && ip.b == 0 && ip.c == 113)
}

/// Whether an IPv6 address could be a public resolver's: not `::`, not `::1`, not multicast, not
/// link-local, not unique local, and no IPv4 address in disguise.
pub open spec fn public_v6(ip: Ipv6Addr) -> bool {
    &&& !(ip.segments() == seq![0u16, 0, 0, 0, 0, 0, 0, 0])
    &&& !(ip.segments() == seq![0u16, 0, 0, 0, 0, 0, 0, 1])
    &&& ip.s0 < 0xff00
    &&& !(0xfe80 <= ip.s0 < 0xfec0)
    &&& !(0xfc00 <= ip.s0 < 0xfe00)
    &&& !(ip.segments().take(6) == seq![0u16, 0, 0, 0, 0, 0xffff])
}

/// Whether an address could be a public resolver's.
pub open spec fn public_ip(ip: IpAddr) -> bool {
    match ip {
        IpAddr::V4(v4) => public_v4(v4),
        IpAddr::V6(v6) => public_v6(v6),
    }
}

/// Whether `ip` is an address a resolver could plausibly be at.
pub fn usable_v4(ip: &Ipv4Addr) -> (r: bool)
    ensures
        r == public_v4(*ip),
{
    0 < ip.a && ip.a < 224 && ip.a != 127 && ip.a != 10 && !(ip.a == 172 && 16 <= ip.b && ip.b
        < 32) && !(ip.a == 192 && ip.b == 168) && !(ip.a == 169 && ip.b == 254) && !(ip.a == 100
        && 64 <= ip.b && ip.b < 128) && !(ip.a == 192 && ip.b == 0 && ip.c == 0) && !(ip.a == 198
        && (ip.b == 18 || ip.b == 19)) && !(ip.a == 192 && ip.b == 0 && ip.c == 2) && !(ip.a == 198
        && ip.b == 51 && ip.c == 100) && !(ip.a == 203 && ip.b == 0 && ip.c == 113)
}

/// Whether `ip` is an address a resolver could plausibly be at.
pub fn usable_v6(ip: &Ipv6Addr) -> (r: bool)
    ensures
        r == public_v6(*ip),
{
    let front_is_zero: bool = ip.s0 == 0 && ip.s1 == 0 && ip.s2 == 0 && ip.s3 == 0 && ip.s4 == 0;
    proof {
        let g = ip.segments();
        let none = seq![0u16, 0, 0, 0, 0, 0, 0, 0];
        let one = seq![0u16, 0, 0, 0, 0, 0, 0, 1];
        let disguise = seq![0u16, 0, 0, 0, 0, 0xffff];
        assert(front_is_zero && ip.s5 == 0 && ip.s6 == 0 && ip.s7 == 0 ==> g =~= none);
        assert(front_is_zero && ip.s5 == 0 && ip.s6 == 0 && ip.s7 == 1 ==> g =~= one);
        assert(front_is_zero && ip.s5 == 0xffff ==> g.take(6) =~= disguise);
        assert(g == none || g == one ==> g[0] == 0 && g[1] == 0 && g[2] == 0 && g[3] == 0 && g[4]
            == 0 && g[5] == 0 && g[6] == 0 && g[7] <= 1);
        assert(g.take(6) == disguise ==> g.take(6)[0] == 0 && g.take(6)[1] == 0 && g.take(6)[2]
            == 0 && g.take(6)[3] == 0 && g.take(6)[4] == 0 && g.take(6)[5] == 0xffff);
    }
    !(front_is_zero && ip.s5 == 0 && ip.s6 == 0 && ip.s7 <= 1) && ip.s0 < 0xff00 && !(0xfe80
        <= ip.s0 && ip.s0 < 0xfec0) && !(0xfc00 <= ip.s0 && ip.s0 < 0xfe00) && !(front_is_zero
        && ip.s5 == 0xffff)
}

/// What the lists of addresses need of an address.
pub trait Address: Sized {
    /// Whether it could be a public resolver's.
    spec fn public(self) -> bool;

    /// It as an address of either family.
    spec fn ip(self) -> IpAddr;

    /// It as an address of either family.
    fn to_ip(&self) -> (r: IpAddr)
        ensures
            r == self.ip(),
    ;

    /// Whether it could be a public resolver's.
    fn usable(&self) -> (r: bool)
        ensures
            r == self.public(),
    ;

    /// Whether the two are one address.
    fn same_as(&self, other: &Self) -> (r: bool)
        ensures
            r == (*self == *other),
    ;

    /// The same address once more.
    fn again(&self) -> (r: Self)
        ensures
            r == *self,
    ;
}

impl Address for Ipv4Addr {
    open spec fn ip(self) -> IpAddr {
        IpAddr::V4(self)
    }

    fn to_ip(&self) -> (r: IpAddr) {
        IpAddr::V4(*self)
    }

    open spec fn public(self) -> bool {
        public_v4(self)
    }

    fn usable(&self) -> (r: bool) {
        usable_v4(self)
    }

    fn same_as(&self, other: &Self) -> (r: bool) {
        *self == *other
    }

    fn again(&self) -> (r: Self) {
        *self
    }
}

impl Address for Ipv6Addr {
    open spec fn ip(self) -> IpAddr {
        IpAddr::V6(self)
    }

    fn to_ip(&self) -> (r: IpAddr) {
        IpAddr::V6(*self)
    }

    open spec fn public(self) -> bool {
        public_v6(self)
    }

    fn usable(&self) -> (r: bool) {
        usable_v6(self)
    }

    fn same_as(&self, other: &Self) -> (r: bool) {
        *self == *other
    }

    fn again(&self) -> (r: Self) {
        *self
    }
}

impl Address for IpAddr {
    open spec fn ip(self) -> IpAddr {
        self
    }

    fn to_ip(&self) -> (r: IpAddr) {
        *self
    }

    open spec fn public(self) -> bool {
        public_ip(self)
    }

    fn usable(&self) -> (r: bool) {
        match self {
            IpAddr::V4(v4) => usable_v4(v4),
            IpAddr::V6(v6) => usable_v6(v6),
        }
    }

    fn same_as(&self, other: &Self) -> (r: bool) {
        *self == *other
    }

    fn again(&self) -> (r: Self) {
        *self
    }
}

/// Whether `x` is one of the addresses of the list.
pub fn member<T: Address>(list: &Vec<T>, x: &T) -> (r: bool)
    ensures
        r == list@.contains(*x),
{
    let mut i: usize = 0;
    while i < list.len()
        invariant
            i <= list@.len(),
            forall|k: int| 0 <= k < i ==> list@[k] != *x,
        decreases list@.len() - i,
    {
        if list[i].same_as(x) {
            return true;
        }
        i += 1;
    }
    false
}

/// The same list once more.
pub fn copied<T: Address>(list: &Vec<T>) -> (r: Vec<T>)
    ensures
        r@ == list@,
{
    let mut out: Vec<T> = Vec::new();
    let mut i: usize = 0;
    while i < list.len()
        invariant
            i <= list@.len(),
            out@ == list@.take(i as int),
        decreases list@.len() - i,
    {
        out.push(list[i].again());
        i += 1;
        assert(list@.take(i as int) =~= list@.take(i - 1).push(list@[i - 1]));
    }
    assert(list@.take(i as int) =~= list@);
    out
}

/// The IPv4 addresses that can be reached from everywhere, by their numbers: all but those of the
/// blocks that are set aside for one machine, one network, documentation, measurements, groups or
/// later use.
pub proof fn law_blocks_that_are_not_public(ip: Ipv4Addr)
    ensures
        ({
            let n = ip.a * 0x100_0000 + ip.b * 0x1_0000 + ip.c * 0x100 + ip.d;
            public_v4(ip) <==> {
                &&& n > 0x00FF_FFFF
                &&& !(0x0A00_0000 <= n <= 0x0AFF_FFFF)
                &&& !(0x6440_0000 <= n <= 0x647F_FFFF)
                &&& !(0x7F00_0000 <= n <= 0x7FFF_FFFF)
                &&& !(0xA9FE_0000 <= n <= 0xA9FE_FFFF)
                &&& !(0xAC10_0000 <= n <= 0xAC1F_FFFF)
                &&& !(0xC000_0000 <= n <= 0xC000_00FF)
                &&& !(0xC000_0200 <= n <= 0xC000_02FF)
                &&& !(0xC0A8_0000 <= n <= 0xC0A8_FFFF)
                &&& !(0xC612_0000 <= n <= 0xC613_FFFF)
                &&& !(0xC633_6400 <= n <= 0xC633_64FF)
                &&& !(0xCB00_7100 <= n <= 0xCB00_71FF)
                &&& n < 0xE000_0000
            }
        }),
{
}

/// The IPv6 addresses that can be reached from everywhere: all but the unspecified one, the loopback,
/// groups, addresses of one link or one site's own, and IPv4 addresses in disguise.
pub proof fn law_v6_blocks_that_are_not_public(ip: Ipv6Addr)
    ensures
        public_v6(ip) <==> {
            let low = ip.s0 == 0 && ip.s1 == 0 && ip.s2 == 0 && ip.s3 == 0 && ip.s4 == 0;
            &&& !(low && ip.s5 == 0 && ip.s6 == 0 && (ip.s7 == 0 || ip.s7 == 1))
            &&& !(low && ip.s5 == 0xffff)
            &&& ip.s0 / 0x200 != 0x7E
            &&& ip.s0 / 0x40 != 0x3FA
            &&& ip.s0 / 0x100 != 0xFF
        },
{
    let g = ip.segments();
    let zero = seq![0u16, 0, 0, 0, 0, 0, 0, 0];
    let one = seq![0u16, 0, 0, 0, 0, 0, 0, 1];
    let disguised = seq![0u16, 0, 0, 0, 0, 0xffff];
    if ip.s0 == 0 && ip.s1 == 0 && ip.s2 == 0 && ip.s3 == 0 && ip.s4 == 0 && ip.s5 == 0 && ip.s6
        == 0 {
        if ip.s7 == 0 {
            assert(g =~= zero);
        } else if ip.s7 == 1 {
            assert(g =~= one);
        }
    }
    if ip.s0 == 0 && ip.s1 == 0 && ip.s2 == 0 && ip.s3 == 0 && ip.s4 == 0 && ip.s5 == 0xffff {
        assert(g.take(6) =~= disguised);
    }
    if g == zero {
        assert(zero[0] == 0 && zero[1] == 0 && zero[2] == 0 && zero[3] == 0 && zero[4] == 0
            && zero[5] == 0 && zero[6] == 0 && zero[7] == 0);
        assert(g[0] == ip.s0 && g[1] == ip.s1 && g[2] == ip.s2 && g[3] == ip.s3 && g[4] == ip.s4
            && g[5] == ip.s5 && g[6] == ip.s6 && g[7] == ip.s7);
    }
    if g == one {
        assert(one[0] == 0 && one[1] == 0 && one[2] == 0 && one[3] == 0 && one[4] == 0 && one[5]
            == 0 && one[6] == 0 && one[7] == 1);
        assert(g[0] == ip.s0 && g[1] == ip.s1 && g[2] == ip.s2 && g[3] == ip.s3 && g[4] == ip.s4
            && g[5] == ip.s5 && g[6] == ip.s6 && g[7] == ip.s7);
    }
    if g.take(6) == disguised {
        let t = g.take(6);
        assert(disguised[0] == 0 && disguised[1] == 0 && disguised[2] == 0 && disguised[3] == 0
            && disguised[4] == 0 && disguised[5] == 0xffff);
        assert(t[0] == ip.s0 && t[1] == ip.s1 && t[2] == ip.s2 && t[3] == ip.s3 && t[4] == ip.s4
            && t[5] == ip.s5);
    }
}

/// An address is public where it is so in its family.
pub proof fn law_public_in_its_family(v4: Ipv4Addr, v6: Ipv6Addr)
    ensures
        public_ip(IpAddr::V4(v4)) == public_v4(v4),
        public_ip(IpAddr::V6(v6)) == public_v6(v6),
        v4.ip() == IpAddr::V4(v4),
        v6.ip() == IpAddr::V6(v6),
{
}

} // verus!
