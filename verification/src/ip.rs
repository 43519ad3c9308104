//! IP addresses and prefixes as plain numbers.

use vstd::prelude::*;

use crate::text::decimal;

verus! {

/// The number that a big-endian byte sequence stands for.
pub open spec fn be_value(s: Seq<u8>) -> nat
    decreases s.len(),
{
    if s.len() == 0 {
        0
    } else {
        be_value(s.drop_last()) * 256 + s.last() as nat
    }
}

/// The `n` lowest bytes of a number, most significant byte first.
pub open spec fn be_bytes(v: nat, n: nat) -> Seq<u8>
    decreases n,
{
    if n == 0 {
        Seq::empty()
    } else {
        be_bytes(v / 256, (n - 1) as nat).push((v % 256) as u8)
    }
}

/// How many numbers fit into `n` bytes.
pub open spec fn pow256(n: nat) -> nat
    decreases n,
{
    if n == 0 {
        1
    } else {
        256 * pow256((n - 1) as nat)
    }
}

/// A number is written with as many bytes as asked for.
pub proof fn lemma_be_bytes_len(v: nat, n: nat)
    ensures
        be_bytes(v, n).len() == n,
    decreases n,
{
    if n > 0 {
        lemma_be_bytes_len(v / 256, (n - 1) as nat);
    }
}

/// So many bytes spell a number that fits into them.
pub proof fn lemma_be_value_bound(s: Seq<u8>)
    ensures
        be_value(s) < pow256(s.len()),
    decreases s.len(),
{
    if s.len() > 0 {
        lemma_be_value_bound(s.drop_last());
    }
}

/// Reading back the bytes of a number gives the number.
pub proof fn lemma_be_round_trip(v: nat, n: nat)
    requires
        v < pow256(n),
    ensures
        be_value(be_bytes(v, n)) == v,
    decreases n,
{
    lemma_be_bytes_len(v, n);
    if n > 0 {
        lemma_be_round_trip(v / 256, (n - 1) as nat);
        assert(be_bytes(v, n).drop_last() =~= be_bytes(v / 256, (n - 1) as nat));
    }
}

/// How many IPv4 and IPv6 addresses there are.
pub proof fn lemma_pow256_widths()
    ensures
        pow256(4) == 0x1_0000_0000,
        pow256(16) == 0x1_0000_0000_0000_0000_0000_0000_0000_0000,
{
    reveal_with_fuel(pow256, 17);
}

proof fn lemma_pow256_mono(m: nat, n: nat)
    requires
        m <= n,
    ensures
        pow256(m) <= pow256(n),
    decreases n,
{
    if m < n {
        lemma_pow256_mono(m, (n - 1) as nat);
    }
}

/// Writing the number that some bytes spell gives the bytes back.
pub proof fn lemma_be_bytes_back(s: Seq<u8>)
    ensures
        be_bytes(be_value(s), s.len()) == s,
    decreases s.len(),
{
    if s.len() > 0 {
        lemma_be_bytes_back(s.drop_last());
        assert(be_bytes(be_value(s), s.len()) =~= s);
    } else {
        assert(be_bytes(be_value(s), 0) =~= s);
    }
}

/// The bytes in front weigh more: those behind them count up to one of theirs.
pub proof fn lemma_be_concat(s: Seq<u8>, t: Seq<u8>)
    ensures
        be_value(s + t) == be_value(s) * pow256(t.len()) + be_value(t),
    decreases t.len(),
{
    if t.len() == 0 {
        assert(s + t =~= s);
        assert(pow256(0) == 1);
        assert(be_value(s) * 1 == be_value(s));
    } else {
        let fewer = t.drop_last();
        lemma_be_concat(s, fewer);
        assert((s + t).drop_last() =~= s + fewer);
        assert((s + t).last() == t.last());
        let a = be_value(s);
        let p = pow256(fewer.len());
        assert(pow256(t.len()) == 256 * p);
        assert((a * p + be_value(fewer)) * 256 + t.last() as nat == a * (256 * p) + (be_value(fewer)
            * 256 + t.last() as nat)) by (nonlinear_arith);
    }
}

/// The four bytes of an IPv4 address in network order: the first is the most significant.
pub proof fn lemma_ipv4_octets(a: u8, b: u8, c: u8, d: u8)
    ensures
        be_value(seq![a, b, c, d]) == a * 0x100_0000 + b * 0x1_0000 + c * 0x100 + d,
        Ipv4Addr((a * 0x100_0000 + b * 0x1_0000 + c * 0x100 + d) as u32).spec_octets() == seq![
            a,
            b,
            c,
            d,
        ],
{
    let s = seq![a, b, c, d];
    assert(s.drop_last() =~= seq![a, b, c]);
    assert(seq![a, b, c].drop_last() =~= seq![a, b]);
    assert(seq![a, b].drop_last() =~= seq![a]);
    assert(seq![a].drop_last() =~= Seq::<u8>::empty());
    reveal_with_fuel(be_value, 5);
    lemma_be_bytes_back(s);
}

/// The sixteen bytes of an IPv6 address in network order: the two of each group, and the first
/// group first.
pub proof fn lemma_ipv6_octets(
    a: u16,
    b: u16,
    c: u16,
    d: u16,
    e: u16,
    f: u16,
    g: u16,
    h: u16,
)
    ensures
        Ipv6Addr(
            (a * 0x1_0000_0000_0000_0000_0000_0000_0000 + b * 0x1_0000_0000_0000_0000_0000_0000 + c
                * 0x1_0000_0000_0000_0000_0000 + d * 0x1_0000_0000_0000_0000 + e
                * 0x1_0000_0000_0000 + f * 0x1_0000_0000 + g * 0x1_0000 + h) as u128,
        ).spec_octets() == seq![
            (a / 256) as u8,
            (a % 256) as u8,
            (b / 256) as u8,
            (b % 256) as u8,
            (c / 256) as u8,
            (c % 256) as u8,
            (d / 256) as u8,
            (d % 256) as u8,
            (e / 256) as u8,
            (e % 256) as u8,
            (f / 256) as u8,
            (f % 256) as u8,
            (g / 256) as u8,
            (g % 256) as u8,
            (h / 256) as u8,
            (h % 256) as u8,
        ],
{
    let ga = group_bytes(a);
    let gb = group_bytes(b);
    let gc = group_bytes(c);
    let gd = group_bytes(d);
    let ge = group_bytes(e);
    let gf = group_bytes(f);
    let gg = group_bytes(g);
    let gh = group_bytes(h);
    let s2 = ga + gb;
    let s3 = s2 + gc;
    let s4 = s3 + gd;
    let s5 = s4 + ge;
    let s6 = s5 + gf;
    let s7 = s6 + gg;
    let s8 = s7 + gh;
    lemma_group_value(a);
    lemma_group_behind(ga, b);
    lemma_group_behind(s2, c);
    lemma_group_behind(s3, d);
    lemma_group_behind(s4, e);
    lemma_group_behind(s5, f);
    lemma_group_behind(s6, g);
    lemma_group_behind(s7, h);
    lemma_be_bytes_back(s8);
}

/// The two bytes of sixteen bits.
spec fn group_bytes(g: u16) -> Seq<u8> {
    seq![(g / 256) as u8, (g % 256) as u8]
}

proof fn lemma_group_value(g: u16)
    ensures
        be_value(group_bytes(g)) == g,
{
    let s = group_bytes(g);
    assert(s.drop_last() =~= seq![(g / 256) as u8]);
    assert(s.drop_last().drop_last() =~= Seq::<u8>::empty());
    reveal_with_fuel(be_value, 3);
}

proof fn lemma_group_behind(s: Seq<u8>, g: u16)
    ensures
        be_value(s + group_bytes(g)) == be_value(s) * 0x1_0000 + g,
{
    lemma_be_concat(s, group_bytes(g));
    lemma_group_value(g);
    reveal_with_fuel(pow256, 3);
}

/// Reads the first `n` bytes as a big-endian number.
fn read_be(bytes: &[u8], n: usize) -> (r: u128)
    requires
        n <= bytes@.len(),
        n <= 16,
    ensures
        r == be_value(bytes@.take(n as int)),
    decreases n,
{
    if n == 0 {
        0
    } else {
        let high = read_be(bytes, n - 1);
        proof {
            lemma_be_value_bound(bytes@.take(n - 1));
            lemma_pow256_mono((n - 1) as nat, 15);
            lemma_pow256_widths();
            assert(pow256(16) == 256 * pow256(15));
            assert(bytes@.take(n as int).drop_last() =~= bytes@.take(n - 1));
        }
        high * 256 + bytes[n - 1] as u128
    }
}

/// Appends the `n` lowest bytes of a number, most significant byte first.
fn write_be(buf: &mut Vec<u8>, v: u128, n: usize)
    ensures
        final(buf)@ == old(buf)@ + be_bytes(v as nat, n as nat),
    decreases n,
{
    if n > 0 {
        write_be(buf, v / 256, n - 1);
        buf.push((v % 256) as u8);
    }
}

/// An IPv4 address, held as the number that its four bytes spell.
#[derive(Debug, Clone, Copy, PartialEq, Eq, Hash, Structural)]
pub struct Ipv4Addr(pub u32);

/// An IPv6 address, held as the number that its sixteen bytes spell.
#[derive(Debug, Clone, Copy, PartialEq, Eq, Hash, Structural)]
pub struct Ipv6Addr(pub u128);

impl Ipv4Addr {
    /// The bytes of the address in network order.
    pub open spec fn spec_octets(self) -> Seq<u8> {
        be_bytes(self.0 as nat, 4)
    }

    /// Creates the address `a.b.c.d`.
    pub fn new(a: u8, b: u8, c: u8, d: u8) -> (r: Self)
        ensures
            r.0 == a * 0x100_0000 + b * 0x1_0000 + c * 0x100 + d,
    {
        Ipv4Addr(a as u32 * 0x100_0000 + b as u32 * 0x1_0000 + c as u32 * 0x100 + d as u32)
    }

    /// Reads an address from its bytes in network order.
    pub fn from_octets(octets: &[u8]) -> (r: Self)
        requires
            octets@.len() == 4,
        ensures
            r.0 == be_value(octets@),
    {
        let v = read_be(octets, 4);
        proof {
            assert(octets@.take(4) =~= octets@);
            lemma_be_value_bound(octets@);
            lemma_pow256_widths();
        }
        Ipv4Addr(v as u32)
    }

    /// Returns the bytes of the address in network order.
    pub fn octets(&self) -> (r: Vec<u8>)
        ensures
            r@ == self.spec_octets(),
    {
        let mut buf = Vec::new();
        write_be(&mut buf, self.0 as u128, 4);
        buf
    }
}

impl Ipv6Addr {
    /// The bytes of the address in network order.
    pub open spec fn spec_octets(self) -> Seq<u8> {
        be_bytes(self.0 as nat, 16)
    }

    /// Creates an address from its eight groups of sixteen bits.
    pub fn new(a: u16, b: u16, c: u16, d: u16, e: u16, f: u16, g: u16, h: u16) -> (r: Self)
        ensures
            r.0 == a * 0x1_0000_0000_0000_0000_0000_0000_0000 + b
                * 0x1_0000_0000_0000_0000_0000_0000 + c * 0x1_0000_0000_0000_0000_0000 + d
                * 0x1_0000_0000_0000_0000 + e * 0x1_0000_0000_0000 + f * 0x1_0000_0000 + g * 0x1_0000
                + h,
    {
        let high: u64 = a as u64 * 0x1_0000_0000_0000 + b as u64 * 0x1_0000_0000 + c as u64
            * 0x1_0000 + d as u64;
        let low: u64 = e as u64 * 0x1_0000_0000_0000 + f as u64 * 0x1_0000_0000 + g as u64
            * 0x1_0000 + h as u64;
        Ipv6Addr(high as u128 * 0x1_0000_0000_0000_0000 + low as u128)
    }

    /// The address in its usual text form.
    pub fn text(&self) -> (r: String)
        ensures
            r@ == ipv6_text(self.0),
    {
        format_ipv6(self.0)
    }

    /// Reads an address from its bytes in network order.
    pub fn from_octets(octets: &[u8]) -> (r: Self)
        requires
            octets@.len() == 16,
        ensures
            r.0 == be_value(octets@),
    {
        let v = read_be(octets, 16);
        proof {
            assert(octets@.take(16) =~= octets@);
        }
        Ipv6Addr(v)
    }

    /// Returns the bytes of the address in network order.
    pub fn octets(&self) -> (r: Vec<u8>)
        ensures
            r@ == self.spec_octets(),
    {
        let mut buf = Vec::new();
        write_be(&mut buf, self.0, 16);
        buf
    }
}

/// An IP address of either version.
#[derive(Debug, Clone, Copy, PartialEq, Eq, Hash, Structural)]
pub enum IpAddr {
    V4(Ipv4Addr),
    V6(Ipv6Addr),
}

/// An IPv4 address with a prefix length.
#[derive(Debug, Clone, Copy, PartialEq, Eq, Hash, Structural)]
pub struct Ipv4Net {
    pub addr: Ipv4Addr,
    pub prefix_len: u8,
}

/// An IPv6 address with a prefix length.
#[derive(Debug, Clone, Copy, PartialEq, Eq, Hash, Structural)]
pub struct Ipv6Net {
    pub addr: Ipv6Addr,
    pub prefix_len: u8,
}

/// An IP prefix. The address keeps the bits beyond the prefix length.
#[derive(Debug, Clone, Copy, PartialEq, Eq, Hash, Structural)]
pub enum IpNet {
    V4(Ipv4Net),
    V6(Ipv6Net),
}

impl IpNet {
    /// The prefix length is one that the address can have.
    pub open spec fn wf(self) -> bool {
        match self {
            IpNet::V4(net) => net.prefix_len <= 32,
            IpNet::V6(net) => net.prefix_len <= 128,
        }
    }

    pub open spec fn spec_addr(self) -> IpAddr {
        match self {
            IpNet::V4(net) => IpAddr::V4(net.addr),
            IpNet::V6(net) => IpAddr::V6(net.addr),
        }
    }

    pub open spec fn spec_prefix_len(self) -> u8 {
        match self {
            IpNet::V4(net) => net.prefix_len,
            IpNet::V6(net) => net.prefix_len,
        }
    }

    /// The text `address/length`.
    pub open spec fn spec_text(self) -> Seq<char> {
        match self {
            IpNet::V4(net) => ipv4_net_text(net.addr.0, net.prefix_len),
            IpNet::V6(net) => ipv6_net_text(net.addr.0, net.prefix_len),
        }
    }

    /// Pairs an address with a prefix length. The length is at most 32 for an IPv4 address and at
    /// most 128 for an IPv6 address.
    pub fn new(addr: IpAddr, prefix_len: u8) -> (r: Option<Self>)
        ensures
            r is Some <==> prefix_len <= (if addr is V4 {
                32
            } else {
                128int
            }),
            r matches Some(net) ==> net.wf() && net.spec_addr() == addr && net.spec_prefix_len()
                == prefix_len,
    {
        match addr {
            IpAddr::V4(addr) => if prefix_len > 32 {
                None
            } else {
                Some(IpNet::V4(Ipv4Net { addr, prefix_len }))
            },
            IpAddr::V6(addr) => if prefix_len > 128 {
                None
            } else {
                Some(IpNet::V6(Ipv6Net { addr, prefix_len }))
            },
        }
    }

    /// The address, with the bits beyond the prefix length.
    pub fn addr(&self) -> (r: IpAddr)
        ensures
            r == self.spec_addr(),
    {
        match *self {
            IpNet::V4(net) => IpAddr::V4(net.addr),
            IpNet::V6(net) => IpAddr::V6(net.addr),
        }
    }

    /// The prefix length.
    pub fn prefix_len(&self) -> (r: u8)
        ensures
            r == self.spec_prefix_len(),
    {
        match *self {
            IpNet::V4(net) => net.prefix_len,
            IpNet::V6(net) => net.prefix_len,
        }
    }

    /// The prefix in its usual text form.
    pub fn text(&self) -> (r: String)
        requires
            self.wf(),
        ensures
            r@ == self.spec_text(),
    {
        match *self {
            IpNet::V4(net) => format_ipv4_net(net.addr.0, net.prefix_len),
            IpNet::V6(net) => format_ipv6_net(net.addr.0, net.prefix_len),
        }
    }
}

/// A prefix is determined by its address and its length.
pub proof fn lemma_prefix_determined(one: IpNet, other: IpNet)
    ensures
        one.spec_addr() == other.spec_addr() && one.spec_prefix_len() == other.spec_prefix_len()
            ==> one == other,
        one matches IpNet::V4(net) ==> one.spec_addr() == IpAddr::V4(net.addr)
            && one.spec_prefix_len() == net.prefix_len,
        one matches IpNet::V6(net) ==> one.spec_addr() == IpAddr::V6(net.addr)
            && one.spec_prefix_len() == net.prefix_len,
{
}

/// The four bytes of an IPv4 address in decimal with dots between them, a slash and the prefix
/// length.
pub open spec fn ipv4_net_text(bits: u32, prefix_len: u8) -> Seq<char> {
    let octets = be_bytes(bits as nat, 4);
    decimal(octets[0] as nat) + seq!['.'] + decimal(octets[1] as nat) + seq!['.'] + decimal(
        octets[2] as nat,
    ) + seq!['.'] + decimal(octets[3] as nat) + seq!['/'] + decimal(prefix_len as nat)
}

/// The text of a prefix: `a.b.c.d/length` for the IPv4 address with these bytes; for IPv6 the text
/// of the address, a slash and the length.
pub proof fn lemma_prefix_text(a: u8, b: u8, c: u8, d: u8, prefix_len: u8, addr: Ipv6Addr)
    ensures
        IpNet::V4(
            Ipv4Net {
                addr: Ipv4Addr((a * 0x100_0000 + b * 0x1_0000 + c * 0x100 + d) as u32),
                prefix_len,
            },
        ).spec_text() == decimal(a as nat) + seq!['.'] + decimal(b as nat) + seq!['.'] + decimal(
            c as nat,
        ) + seq!['.'] + decimal(d as nat) + seq!['/'] + decimal(prefix_len as nat),
        IpNet::V6(Ipv6Net { addr, prefix_len }).spec_text() == ipv6_text(addr.0) + seq!['/']
            + decimal(prefix_len as nat),
{
    lemma_ipv4_octets(a, b, c, d);
}

/// The text of an IPv6 address, a slash and the prefix length.
pub open spec fn ipv6_net_text(bits: u128, prefix_len: u8) -> Seq<char> {
    ipv6_text(bits) + seq!['/'] + decimal(prefix_len as nat)
}

/// The text that the standard library gives an IPv6 address.
pub uninterp spec fn ipv6_text(bits: u128) -> Seq<char>;

/// Formats an IPv6 address with the `Display` of the standard library's `Ipv6Addr`, which the
/// address of an `ipnet::Ipv6Net` is. What that text is has a name here, [`ipv6_text`].
#[verifier::external_body]
fn format_ipv6(bits: u128) -> (r: String)
    ensures
        r@ == ipv6_text(bits),
{
    ipnet::Ipv6Net::new_assert(bits.into(), 128).addr().to_string()
}

/// Formats an IPv4 prefix with the `Display` of `ipnet::Ipv4Net`: the address in dotted decimal, a
/// slash and the prefix length.
#[verifier::external_body]
fn format_ipv4_net(bits: u32, prefix_len: u8) -> (r: String)
    requires
        prefix_len <= 32,
    ensures
        r@ == ipv4_net_text(bits, prefix_len),
{
    ipnet::Ipv4Net::new_assert(bits.into(), prefix_len).to_string()
}

/// Formats an IPv6 prefix with the `Display` of `ipnet::Ipv6Net`: the address as [`format_ipv6`]
/// writes it, a slash and the prefix length.
#[verifier::external_body]
fn format_ipv6_net(bits: u128, prefix_len: u8) -> (r: String)
    requires
        prefix_len <= 128,
    ensures
        r@ == ipv6_net_text(bits, prefix_len),
{
    ipnet::Ipv6Net::new_assert(bits.into(), prefix_len).to_string()
}

/// The address of a peer: an IP address and a port, followed for IPv6 by the flow information and
/// the scope.
#[derive(Debug, Clone, Copy, PartialEq, Eq, Hash, Structural)]
pub enum SocketAddr {
    V4(Ipv4Addr, u16),
    V6(Ipv6Addr, u16, u32, u32),
}

impl crate::members::Same for SocketAddr {
    fn same(&self, other: &Self) -> (r: bool) {
        *self == *other
    }
}

} // verus!
