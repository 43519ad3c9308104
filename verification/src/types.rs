//! Core types of the MetalBond protocol.

use vstd::prelude::*;
use vstd::std_specs::convert::FromSpec;

use crate::error::{Error, Failure};
use crate::ip::{IpAddr, IpNet, Ipv4Addr, Ipv4Net, Ipv6Addr, Ipv6Net};
use crate::ip::{
    be_value, ipv6_text, lemma_be_bytes_back, lemma_be_bytes_len, lemma_be_round_trip,
    lemma_be_value_bound, lemma_pow256_widths,
};
use crate::proto;
use crate::text::{decimal, decimal_text};

verus! {

/// Virtual Network Identifier.
#[derive(Debug, Clone, Copy, PartialEq, Eq, Hash, Structural)]
pub struct Vni(pub u32);

impl crate::members::Same for Vni {
    fn same(&self, other: &Self) -> (r: bool) {
        self.0 == other.0
    }
}

impl From<u32> for Vni {
    fn from(v: u32) -> (r: Self) {
        Vni(v)
    }
}

impl vstd::std_specs::convert::FromSpecImpl<u32> for Vni {
    open spec fn obeys_from_spec() -> bool {
        true
    }

    open spec fn from_spec(v: u32) -> Vni {
        Vni(v)
    }
}

impl From<Vni> for u32 {
    fn from(v: Vni) -> (r: Self) {
        v.0
    }
}

impl vstd::std_specs::convert::FromSpecImpl<Vni> for u32 {
    open spec fn obeys_from_spec() -> bool {
        true
    }

    open spec fn from_spec(v: Vni) -> u32 {
        v.0
    }
}

impl Vni {
    /// The identifier in decimal.
    pub fn text(&self) -> (r: String)
        ensures
            r@ == decimal(self.0 as nat),
    {
        decimal_text(self.0 as u64)
    }
}

/// IP version.
#[derive(Debug, Clone, Copy, PartialEq, Eq, Structural)]
pub enum IpVersion {
    V4,
    V6,
}

impl From<proto::IpVersion> for IpVersion {
    fn from(v: proto::IpVersion) -> (r: Self) {
        match v {
            proto::IpVersion::IPv4 => IpVersion::V4,
            proto::IpVersion::IPv6 => IpVersion::V6,
        }
    }
}

impl vstd::std_specs::convert::FromSpecImpl<proto::IpVersion> for IpVersion {
    open spec fn obeys_from_spec() -> bool {
        true
    }

    open spec fn from_spec(v: proto::IpVersion) -> IpVersion {
        match v {
            proto::IpVersion::IPv4 => IpVersion::V4,
            proto::IpVersion::IPv6 => IpVersion::V6,
        }
    }
}

impl From<IpVersion> for proto::IpVersion {
    fn from(v: IpVersion) -> (r: Self) {
        match v {
            IpVersion::V4 => proto::IpVersion::IPv4,
            IpVersion::V6 => proto::IpVersion::IPv6,
        }
    }
}

impl vstd::std_specs::convert::FromSpecImpl<IpVersion> for proto::IpVersion {
    open spec fn obeys_from_spec() -> bool {
        true
    }

    open spec fn from_spec(v: IpVersion) -> proto::IpVersion {
        match v {
            IpVersion::V4 => proto::IpVersion::IPv4,
            IpVersion::V6 => proto::IpVersion::IPv6,
        }
    }
}

/// Update action.
#[derive(Debug, Clone, Copy, PartialEq, Eq, Structural)]
pub enum Action {
    Add,
    Remove,
}

impl From<proto::Action> for Action {
    fn from(v: proto::Action) -> (r: Self) {
        match v {
            proto::Action::Add => Action::Add,
            proto::Action::Remove => Action::Remove,
        }
    }
}

impl vstd::std_specs::convert::FromSpecImpl<proto::Action> for Action {
    open spec fn obeys_from_spec() -> bool {
        true
    }

    open spec fn from_spec(v: proto::Action) -> Action {
        match v {
            proto::Action::Add => Action::Add,
            proto::Action::Remove => Action::Remove,
        }
    }
}

impl From<Action> for proto::Action {
    fn from(v: Action) -> (r: Self) {
        match v {
            Action::Add => proto::Action::Add,
            Action::Remove => proto::Action::Remove,
        }
    }
}

impl vstd::std_specs::convert::FromSpecImpl<Action> for proto::Action {
    open spec fn obeys_from_spec() -> bool {
        true
    }

    open spec fn from_spec(v: Action) -> proto::Action {
        match v {
            Action::Add => proto::Action::Add,
            Action::Remove => proto::Action::Remove,
        }
    }
}

/// Next hop type.
#[derive(Debug, Clone, Copy, PartialEq, Eq, Hash, Structural)]
pub enum NextHopType {
    /// Direct encapsulation to the target address.
    Standard,
    /// NAT at the endpoint.
    Nat,
    /// Load balancer backend.
    LoadBalancerTarget,
}

impl Default for NextHopType {
    fn default() -> (r: Self)
        ensures
            r == NextHopType::Standard,
    {
        NextHopType::Standard
    }
}

impl From<proto::NextHopType> for NextHopType {
    fn from(v: proto::NextHopType) -> (r: Self) {
        match v {
            proto::NextHopType::Standard => NextHopType::Standard,
            proto::NextHopType::Nat => NextHopType::Nat,
            proto::NextHopType::LoadbalancerTarget => NextHopType::LoadBalancerTarget,
        }
    }
}

impl vstd::std_specs::convert::FromSpecImpl<proto::NextHopType> for NextHopType {
    open spec fn obeys_from_spec() -> bool {
        true
    }

    open spec fn from_spec(v: proto::NextHopType) -> NextHopType {
        match v {
            proto::NextHopType::Standard => NextHopType::Standard,
            proto::NextHopType::Nat => NextHopType::Nat,
            proto::NextHopType::LoadbalancerTarget => NextHopType::LoadBalancerTarget,
        }
    }
}

impl From<NextHopType> for proto::NextHopType {
    fn from(v: NextHopType) -> (r: Self) {
        match v {
            NextHopType::Standard => proto::NextHopType::Standard,
            NextHopType::Nat => proto::NextHopType::Nat,
            NextHopType::LoadBalancerTarget => proto::NextHopType::LoadbalancerTarget,
        }
    }
}

impl vstd::std_specs::convert::FromSpecImpl<NextHopType> for proto::NextHopType {
    open spec fn obeys_from_spec() -> bool {
        true
    }

    open spec fn from_spec(v: NextHopType) -> proto::NextHopType {
        match v {
            NextHopType::Standard => proto::NextHopType::Standard,
            NextHopType::Nat => proto::NextHopType::Nat,
            NextHopType::LoadBalancerTarget => proto::NextHopType::LoadbalancerTarget,
        }
    }
}

impl NextHopType {
    pub open spec fn spec_text(self) -> Seq<char> {
        match self {
            NextHopType::Standard => "STANDARD"@,
            NextHopType::Nat => "NAT"@,
            NextHopType::LoadBalancerTarget => "LOADBALANCER_TARGET"@,
        }
    }

    /// The name of the type.
    pub fn text(&self) -> (r: String)
        ensures
            r@ == self.spec_text(),
    {
        match self {
            NextHopType::Standard => "STANDARD".to_owned(),
            NextHopType::Nat => "NAT".to_owned(),
            NextHopType::LoadBalancerTarget => "LOADBALANCER_TARGET".to_owned(),
        }
    }
}

// ----------------------------------------------------------------------------
// Destination
// ----------------------------------------------------------------------------

/// Route destination (IP prefix).
#[derive(Debug, Clone, Copy, PartialEq, Eq, Hash, Structural)]
pub struct Destination {
    /// The IP prefix.
    pub prefix: IpNet,
}

impl Destination {
    /// The prefix length is one that the address can have.
    pub open spec fn wf(self) -> bool {
        self.prefix.wf()
    }

    /// Creates a new destination from an IP network prefix.
    pub fn new(prefix: IpNet) -> (r: Self)
        ensures
            r.prefix == prefix,
    {
        Self { prefix }
    }

    /// Creates a destination from an IPv4 address and prefix length.
    pub fn from_ipv4(addr: Ipv4Addr, prefix_len: u8) -> (r: Self)
        requires
            prefix_len <= 32,
        ensures
            r.wf(),
            r.prefix.spec_addr() == IpAddr::V4(addr),
            r.prefix.spec_prefix_len() == prefix_len,
    {
        Self { prefix: IpNet::new(IpAddr::V4(addr), prefix_len).unwrap() }
    }

    /// Creates a destination from an IPv6 address and prefix length.
    pub fn from_ipv6(addr: Ipv6Addr, prefix_len: u8) -> (r: Self)
        requires
            prefix_len <= 128,
        ensures
            r.wf(),
            r.prefix.spec_addr() == IpAddr::V6(addr),
            r.prefix.spec_prefix_len() == prefix_len,
    {
        Self { prefix: IpNet::new(IpAddr::V6(addr), prefix_len).unwrap() }
    }

    /// Returns the IP version of this destination.
    pub fn ip_version(&self) -> (r: IpVersion)
        ensures
            r == self.spec_ip_version(),
    {
        match self.prefix {
            IpNet::V4(_) => IpVersion::V4,
            IpNet::V6(_) => IpVersion::V6,
        }
    }

    pub open spec fn spec_ip_version(self) -> IpVersion {
        match self.prefix {
            IpNet::V4(_) => IpVersion::V4,
            IpNet::V6(_) => IpVersion::V6,
        }
    }

    /// The prefix in its usual text form.
    pub fn text(&self) -> (r: String)
        requires
            self.wf(),
        ensures
            r@ == self.prefix.spec_text(),
    {
        self.prefix.text()
    }

    /// The destination as a message of the schema.
    pub open spec fn spec_to_proto(self) -> proto::DestinationView {
        proto::DestinationView {
            ip_version: match self.prefix {
                IpNet::V4(_) => 0,
                IpNet::V6(_) => 1,
            },
            prefix: match self.prefix {
                IpNet::V4(net) => net.addr.spec_octets(),
                IpNet::V6(net) => net.addr.spec_octets(),
            },
            prefix_length: self.prefix.spec_prefix_len() as u32,
        }
    }

    /// The destination that a message of the schema stands for. Of the prefix length the lowest
    /// byte counts.
    pub open spec fn spec_try_from(d: proto::DestinationView) -> Result<Destination, Failure> {
        let prefix_len = (d.prefix_length % 256) as u8;
        if d.ip_version == 0 {
            if d.prefix.len() != 4 {
                Err(Failure::Protocol("invalid IPv4 address length"@))
            } else if prefix_len > 32 {
                Err(Failure::Protocol("invalid prefix length"@))
            } else {
                let addr = Ipv4Addr(be_value(d.prefix) as u32);
                Ok(Destination { prefix: IpNet::V4(Ipv4Net { addr, prefix_len }) })
            }
        } else if d.ip_version == 1 {
            if d.prefix.len() != 16 {
                Err(Failure::Protocol("invalid IPv6 address length"@))
            } else if prefix_len > 128 {
                Err(Failure::Protocol("invalid prefix length"@))
            } else {
                let addr = Ipv6Addr(be_value(d.prefix) as u128);
                Ok(Destination { prefix: IpNet::V6(Ipv6Net { addr, prefix_len }) })
            }
        } else {
            Err(Failure::Protocol("invalid IP version"@))
        }
    }

    /// Reads a destination from a message of the schema.
    pub fn try_from(d: proto::Destination) -> (r: Result<Self, Error>)
        ensures
            match Destination::spec_try_from(d@) {
                Ok(destination) => r == Ok::<Self, Error>(destination) && destination.wf(),
                Err(failure) => r matches Err(e) && e.reports(failure),
            },
    {
        let addr = match proto::IpVersion::from_number(d.ip_version) {
            Some(proto::IpVersion::IPv4) => {
                if d.prefix.len() != 4 {
                    return Err(Error::protocol("invalid IPv4 address length"));
                }
                IpAddr::V4(Ipv4Addr::from_octets(d.prefix.as_slice()))
            },
            Some(proto::IpVersion::IPv6) => {
                if d.prefix.len() != 16 {
                    return Err(Error::protocol("invalid IPv6 address length"));
                }
                IpAddr::V6(Ipv6Addr::from_octets(d.prefix.as_slice()))
            },
            None => return Err(Error::protocol("invalid IP version")),
        };
        let prefix_len = (d.prefix_length % 256) as u8;
        match IpNet::new(addr, prefix_len) {
            Some(prefix) => Ok(Self { prefix }),
            None => Err(Error::protocol("invalid prefix length")),
        }
    }

    /// Reading a destination back from its message gives the destination.
    pub proof fn lemma_proto_round_trip(self)
        requires
            self.wf(),
        ensures
            Destination::spec_try_from(self.spec_to_proto()) == Ok::<Destination, Failure>(self),
    {
        match self.prefix {
            IpNet::V4(net) => {
                lemma_be_bytes_len(net.addr.0 as nat, 4);
                lemma_pow256_widths();
                lemma_be_round_trip(net.addr.0 as nat, 4);
            },
            IpNet::V6(net) => {
                lemma_be_bytes_len(net.addr.0 as nat, 16);
                lemma_pow256_widths();
                lemma_be_round_trip(net.addr.0 as nat, 16);
            },
        }
    }

    /// What is written for a destination: zero for IPv4 and one for IPv6, the bytes that spell its
    /// address, and its prefix length.
    pub proof fn lemma_proto_fields(self)
        ensures
            self.spec_to_proto().prefix_length == self.prefix.spec_prefix_len(),
            self.spec_ip_version() == IpVersion::V4 <==> self.prefix is V4,
            self.spec_ip_version() == IpVersion::V6 <==> self.prefix is V6,
            self.wf() <==> self.prefix.spec_prefix_len() <= (if self.prefix is V4 {
                32
            } else {
                128int
            }),
            match self.prefix {
                IpNet::V4(net) => {
                    &&& self.spec_to_proto().ip_version == 0
                    &&& self.spec_to_proto().prefix.len() == 4
                    &&& be_value(self.spec_to_proto().prefix) == net.addr.0
                },
                IpNet::V6(net) => {
                    &&& self.spec_to_proto().ip_version == 1
                    &&& self.spec_to_proto().prefix.len() == 16
                    &&& be_value(self.spec_to_proto().prefix) == net.addr.0
                },
            },
    {
        lemma_pow256_widths();
        match self.prefix {
            IpNet::V4(net) => {
                lemma_be_bytes_len(net.addr.0 as nat, 4);
                lemma_be_round_trip(net.addr.0 as nat, 4);
            },
            IpNet::V6(net) => {
                lemma_be_bytes_len(net.addr.0 as nat, 16);
                lemma_be_round_trip(net.addr.0 as nat, 16);
            },
        }
    }

    /// Which messages stand for a destination: those for IPv4 with four bytes and for IPv6 with
    /// sixteen, where the lowest byte of the prefix length is within the address. What is read from
    /// them is what is written for the destination again.
    pub proof fn lemma_proto_accepted(d: proto::DestinationView)
        ensures
            Destination::spec_try_from(d) is Ok <==> {
                ||| d.ip_version == 0 && d.prefix.len() == 4 && d.prefix_length % 256 <= 32
                ||| d.ip_version == 1 && d.prefix.len() == 16 && d.prefix_length % 256 <= 128
            },
            Destination::spec_try_from(d) matches Err(failure) ==> failure == Failure::Protocol(
                if d.ip_version != 0 && d.ip_version != 1 {
                    "invalid IP version"@
                } else if d.ip_version == 0 && d.prefix.len() != 4 {
                    "invalid IPv4 address length"@
                } else if d.ip_version == 1 && d.prefix.len() != 16 {
                    "invalid IPv6 address length"@
                } else {
                    "invalid prefix length"@
                },
            ),
            Destination::spec_try_from(d) matches Ok(destination) ==> {
                &&& destination.wf()
                &&& destination.spec_to_proto().ip_version == d.ip_version
                &&& destination.spec_to_proto().prefix == d.prefix
                &&& destination.spec_to_proto().prefix_length == d.prefix_length % 256
            },
    {
        lemma_be_bytes_back(d.prefix);
        lemma_be_value_bound(d.prefix);
        lemma_pow256_widths();
    }
}

impl proto::Destination {
    /// Writes a destination as a message of the schema.
    pub fn from(d: &Destination) -> (r: proto::Destination)
        ensures
            r@ == d.spec_to_proto(),
    {
        let (ip_version, prefix) = match d.prefix {
            IpNet::V4(net) => (proto::IpVersion::IPv4, net.addr.octets()),
            IpNet::V6(net) => (proto::IpVersion::IPv6, net.addr.octets()),
        };
        proto::Destination {
            ip_version: ip_version.number(),
            prefix,
            prefix_length: d.prefix.prefix_len() as u32,
        }
    }
}

// ----------------------------------------------------------------------------
// Next hop
// ----------------------------------------------------------------------------

/// Next hop for a route.
#[derive(Debug, Clone, Copy, PartialEq, Eq, Hash, Structural)]
pub struct NextHop {
    /// The target address (IPv6 address of the remote hypervisor).
    pub target_address: Ipv6Addr,
    /// Optional target VNI.
    pub target_vni: Option<u32>,
    /// The type of next hop.
    pub hop_type: NextHopType,
    /// NAT port range start (only for NAT type).
    pub nat_port_range_from: u16,
    /// NAT port range end (only for NAT type).
    pub nat_port_range_to: u16,
}

impl NextHop {
    /// Creates a new standard next hop.
    pub fn standard(target_address: Ipv6Addr) -> (r: Self)
        ensures
            r == (NextHop {
                target_address,
                target_vni: None,
                hop_type: NextHopType::Standard,
                nat_port_range_from: 0,
                nat_port_range_to: 0,
            }),
    {
        Self {
            target_address,
            target_vni: None,
            hop_type: NextHopType::Standard,
            nat_port_range_from: 0,
            nat_port_range_to: 0,
        }
    }

    /// Creates a new standard next hop with a target VNI.
    pub fn standard_with_vni(target_address: Ipv6Addr, target_vni: u32) -> (r: Self)
        ensures
            r == (NextHop {
                target_address,
                target_vni: Some(target_vni),
                hop_type: NextHopType::Standard,
                nat_port_range_from: 0,
                nat_port_range_to: 0,
            }),
    {
        Self {
            target_address,
            target_vni: Some(target_vni),
            hop_type: NextHopType::Standard,
            nat_port_range_from: 0,
            nat_port_range_to: 0,
        }
    }

    /// Creates a new NAT next hop.
    pub fn nat_ports(target_address: Ipv6Addr, port_from: u16, port_to: u16) -> (r: Self)
        ensures
            r == (NextHop {
                target_address,
                target_vni: None,
                hop_type: NextHopType::Nat,
                nat_port_range_from: port_from,
                nat_port_range_to: port_to,
            }),
    {
        Self {
            target_address,
            target_vni: None,
            hop_type: NextHopType::Nat,
            nat_port_range_from: port_from,
            nat_port_range_to: port_to,
        }
    }

    /// Creates a new load balancer target next hop.
    pub fn load_balancer(target_address: Ipv6Addr) -> (r: Self)
        ensures
            r == (NextHop {
                target_address,
                target_vni: None,
                hop_type: NextHopType::LoadBalancerTarget,
                nat_port_range_from: 0,
                nat_port_range_to: 0,
            }),
    {
        Self {
            target_address,
            target_vni: None,
            hop_type: NextHopType::LoadBalancerTarget,
            nat_port_range_from: 0,
            nat_port_range_to: 0,
        }
    }

    /// The address, the target VNI where there is one, and what sets the type apart.
    pub open spec fn spec_text(self) -> Seq<char> {
        ipv6_text(self.target_address.0) + (match self.target_vni {
            Some(vni) => " (VNI: "@ + decimal(vni as nat) + ")"@,
            None => Seq::empty(),
        }) + (match self.hop_type {
            NextHopType::Standard => Seq::empty(),
            NextHopType::Nat => " [NAT ports "@ + decimal(self.nat_port_range_from as nat) + "-"@
                + decimal(self.nat_port_range_to as nat) + "]"@,
            NextHopType::LoadBalancerTarget => " [LB]"@,
        })
    }

    /// The next hop in text form.
    pub fn text(&self) -> (r: String)
        ensures
            r@ == self.spec_text(),
    {
        let mut text = self.target_address.text();
        if let Some(vni) = self.target_vni {
            text.append(" (VNI: ");
            text.append(decimal_text(vni as u64).as_str());
            text.append(")");
        }
        match self.hop_type {
            NextHopType::Standard => {},
            NextHopType::Nat => {
                text.append(" [NAT ports ");
                text.append(decimal_text(self.nat_port_range_from as u64).as_str());
                text.append("-");
                text.append(decimal_text(self.nat_port_range_to as u64).as_str());
                text.append("]");
            },
            NextHopType::LoadBalancerTarget => {
                text.append(" [LB]");
            },
        }
        assert(text@ =~= self.spec_text());
        text
    }

    /// The next hop as a message of the schema. A missing target VNI is written as zero.
    pub open spec fn spec_to_proto(self) -> proto::NextHopView {
        proto::NextHopView {
            target_address: self.target_address.spec_octets(),
            target_vni: match self.target_vni {
                Some(vni) => vni,
                None => 0,
            },
            hop_type: match self.hop_type {
                NextHopType::Standard => 0,
                NextHopType::Nat => 1,
                NextHopType::LoadBalancerTarget => 2,
            },
            nat_port_range_from: self.nat_port_range_from as u32,
            nat_port_range_to: self.nat_port_range_to as u32,
        }
    }

    /// The next hop that a message of the schema stands for. Of the ports the lowest 16 bits
    /// count.
    pub open spec fn spec_try_from(nh: proto::NextHopView) -> Result<NextHop, Failure> {
        if nh.target_address.len() != 16 {
            Err(Failure::Protocol("invalid target address length"@))
        } else if !(0 <= nh.hop_type <= 2) {
            Err(Failure::Protocol("invalid next hop type"@))
        } else {
            Ok(
                NextHop {
                    target_address: Ipv6Addr(be_value(nh.target_address) as u128),
                    target_vni: if nh.target_vni != 0 {
                        Some(nh.target_vni)
                    } else {
                        None
                    },
                    hop_type: if nh.hop_type == 0 {
                        NextHopType::Standard
                    } else if nh.hop_type == 1 {
                        NextHopType::Nat
                    } else {
                        NextHopType::LoadBalancerTarget
                    },
                    nat_port_range_from: (nh.nat_port_range_from % 0x1_0000) as u16,
                    nat_port_range_to: (nh.nat_port_range_to % 0x1_0000) as u16,
                },
            )
        }
    }

    /// Reads a next hop from a message of the schema.
    pub fn try_from(nh: proto::NextHop) -> (r: Result<Self, Error>)
        ensures
            match NextHop::spec_try_from(nh@) {
                Ok(next_hop) => r == Ok::<Self, Error>(next_hop),
                Err(failure) => r matches Err(e) && e.reports(failure),
            },
    {
        if nh.target_address.len() != 16 {
            return Err(Error::protocol("invalid target address length"));
        }
        let target_address = Ipv6Addr::from_octets(nh.target_address.as_slice());
        let hop_type = match proto::NextHopType::from_number(nh.hop_type) {
            Some(hop_type) => <NextHopType as From<proto::NextHopType>>::from(hop_type),
            None => return Err(Error::protocol("invalid next hop type")),
        };
        Ok(
            Self {
                target_address,
                target_vni: if nh.target_vni != 0 {
                    Some(nh.target_vni)
                } else {
                    None
                },
                hop_type,
                nat_port_range_from: (nh.nat_port_range_from % 0x1_0000) as u16,
                nat_port_range_to: (nh.nat_port_range_to % 0x1_0000) as u16,
            },
        )
    }

    /// Reading a next hop back from its message gives the next hop, unless its target VNI is
    /// written as the zero that means none.
    pub proof fn lemma_proto_round_trip(self)
        requires
            self.target_vni != Some(0u32),
        ensures
            NextHop::spec_try_from(self.spec_to_proto()) == Ok::<NextHop, Failure>(self),
    {
        lemma_be_bytes_len(self.target_address.0 as nat, 16);
        lemma_pow256_widths();
        lemma_be_round_trip(self.target_address.0 as nat, 16);
    }

    /// What is written for a next hop: the bytes that spell its address, its target VNI or zero,
    /// the number of its type, and its ports.
    pub proof fn lemma_proto_fields(self)
        ensures
            self.spec_to_proto().target_address.len() == 16,
            be_value(self.spec_to_proto().target_address) == self.target_address.0,
            self.target_vni matches Some(vni) ==> self.spec_to_proto().target_vni == vni,
            self.target_vni is None ==> self.spec_to_proto().target_vni == 0,
            self.hop_type is Standard ==> self.spec_to_proto().hop_type == 0,
            self.hop_type is Nat ==> self.spec_to_proto().hop_type == 1,
            self.hop_type is LoadBalancerTarget ==> self.spec_to_proto().hop_type == 2,
            self.spec_to_proto().nat_port_range_from == self.nat_port_range_from,
            self.spec_to_proto().nat_port_range_to == self.nat_port_range_to,
    {
        lemma_be_bytes_len(self.target_address.0 as nat, 16);
        lemma_pow256_widths();
        lemma_be_round_trip(self.target_address.0 as nat, 16);
    }

    /// Which messages stand for a next hop: those with sixteen bytes of an address and one of the
    /// three types. What is read from them is what is written for the next hop again, up to the
    /// lowest sixteen bits of the ports.
    pub proof fn lemma_proto_accepted(nh: proto::NextHopView)
        ensures
            NextHop::spec_try_from(nh) is Ok <==> nh.target_address.len() == 16 && 0 <= nh.hop_type
                <= 2,
            NextHop::spec_try_from(nh) matches Err(failure) ==> failure == Failure::Protocol(
                if nh.target_address.len() != 16 {
                    "invalid target address length"@
                } else {
                    "invalid next hop type"@
                },
            ),
            NextHop::spec_try_from(nh) matches Ok(hop) ==> {
                &&& hop.spec_to_proto().target_address == nh.target_address
                &&& hop.spec_to_proto().target_vni == nh.target_vni
                &&& hop.target_vni is None <==> nh.target_vni == 0
                &&& hop.spec_to_proto().hop_type == nh.hop_type
                &&& hop.spec_to_proto().nat_port_range_from == nh.nat_port_range_from % 0x1_0000
                &&& hop.spec_to_proto().nat_port_range_to == nh.nat_port_range_to % 0x1_0000
            },
    {
        lemma_be_bytes_back(nh.target_address);
        lemma_be_value_bound(nh.target_address);
        lemma_pow256_widths();
    }

    /// How the text of a next hop is made: that of a standard one without a target VNI is that of
    /// its address; a target VNI stands right behind the address; a NAT hop names its ports at the
    /// end, and a load balancer is marked there.
    pub proof fn lemma_text(self)
        ensures
            self.hop_type is Standard && self.target_vni is None ==> self.spec_text() == ipv6_text(
                self.target_address.0,
            ),
            self.target_vni matches Some(vni) ==> self.spec_text() == ipv6_text(
                self.target_address.0,
            ) + (" (VNI: "@ + decimal(vni as nat) + ")"@) + (NextHop {
                target_vni: None,
                ..self
            }).spec_text().skip(ipv6_text(self.target_address.0).len() as int),
            self.hop_type is Nat ==> self.spec_text() == (NextHop {
                hop_type: NextHopType::Standard,
                ..self
            }).spec_text() + (" [NAT ports "@ + decimal(self.nat_port_range_from as nat) + "-"@
                + decimal(self.nat_port_range_to as nat) + "]"@),
            self.hop_type is LoadBalancerTarget ==> self.spec_text() == (NextHop {
                hop_type: NextHopType::Standard,
                ..self
            }).spec_text() + " [LB]"@,
    {
        let address = ipv6_text(self.target_address.0);
        let plain = NextHop { target_vni: None, ..self };
        let standard = NextHop { hop_type: NextHopType::Standard, ..self };
        assert(plain.spec_text().take(address.len() as int) =~= address);
        if let Some(vni) = self.target_vni {
            assert(self.spec_text() =~= address + (" (VNI: "@ + decimal(vni as nat) + ")"@)
                + plain.spec_text().skip(address.len() as int));
        } else if self.hop_type is Standard {
            assert(self.spec_text() =~= address);
        }
        match self.hop_type {
            NextHopType::Standard => {},
            NextHopType::Nat => assert(self.spec_text() =~= standard.spec_text() + (" [NAT ports "@
                + decimal(self.nat_port_range_from as nat) + "-"@ + decimal(
                self.nat_port_range_to as nat,
            ) + "]"@)),
            NextHopType::LoadBalancerTarget => assert(self.spec_text() =~= standard.spec_text()
                + " [LB]"@),
        }
    }
}

impl proto::NextHop {
    /// Writes a next hop as a message of the schema.
    pub fn from(nh: &NextHop) -> (r: proto::NextHop)
        ensures
            r@ == nh.spec_to_proto(),
    {
        proto::NextHop {
            target_address: nh.target_address.octets(),
            target_vni: match nh.target_vni {
                Some(vni) => vni,
                None => 0,
            },
            hop_type: <proto::NextHopType as From<NextHopType>>::from(nh.hop_type).number(),
            nat_port_range_from: nh.nat_port_range_from as u32,
            nat_port_range_to: nh.nat_port_range_to as u32,
        }
    }
}

/// The types of the schema stand for those with the same meaning, in both directions.
pub proof fn lemma_conversions()
    ensures
        <IpVersion as FromSpec<proto::IpVersion>>::from_spec(proto::IpVersion::IPv4)
            == IpVersion::V4,
        <IpVersion as FromSpec<proto::IpVersion>>::from_spec(proto::IpVersion::IPv6)
            == IpVersion::V6,
        <proto::IpVersion as FromSpec<IpVersion>>::from_spec(IpVersion::V4)
            == proto::IpVersion::IPv4,
        <proto::IpVersion as FromSpec<IpVersion>>::from_spec(IpVersion::V6)
            == proto::IpVersion::IPv6,
        <Action as FromSpec<proto::Action>>::from_spec(proto::Action::Add) == Action::Add,
        <Action as FromSpec<proto::Action>>::from_spec(proto::Action::Remove) == Action::Remove,
        <proto::Action as FromSpec<Action>>::from_spec(Action::Add) == proto::Action::Add,
        <proto::Action as FromSpec<Action>>::from_spec(Action::Remove) == proto::Action::Remove,
        forall|t: NextHopType| #[trigger]
            <NextHopType as FromSpec<proto::NextHopType>>::from_spec(
                <proto::NextHopType as FromSpec<NextHopType>>::from_spec(t),
            ) == t,
        <proto::NextHopType as FromSpec<NextHopType>>::from_spec(NextHopType::Standard)
            == proto::NextHopType::Standard,
        <proto::NextHopType as FromSpec<NextHopType>>::from_spec(NextHopType::Nat)
            == proto::NextHopType::Nat,
        <proto::NextHopType as FromSpec<NextHopType>>::from_spec(NextHopType::LoadBalancerTarget)
            == proto::NextHopType::LoadbalancerTarget,
        forall|v: u32| #[trigger]
            <u32 as FromSpec<Vni>>::from_spec(<Vni as FromSpec<u32>>::from_spec(v)) == v,
{
}

// ----------------------------------------------------------------------------
// Connection state
// ----------------------------------------------------------------------------

/// Connection state.
#[derive(Debug, Clone, Copy, PartialEq, Eq, Structural)]
pub enum ConnectionState {
    /// Connecting to the server.
    Connecting,
    /// HELLO message sent, waiting for response.
    HelloSent,
    /// HELLO message received from server.
    HelloReceived,
    /// Connection established and ready for operation.
    Established,
    /// Connection lost, retrying.
    Retry,
    /// Connection closed.
    Closed,
}

impl ConnectionState {
    pub open spec fn spec_text(self) -> Seq<char> {
        match self {
            ConnectionState::Connecting => "CONNECTING"@,
            ConnectionState::HelloSent => "HELLO_SENT"@,
            ConnectionState::HelloReceived => "HELLO_RECEIVED"@,
            ConnectionState::Established => "ESTABLISHED"@,
            ConnectionState::Retry => "RETRY"@,
            ConnectionState::Closed => "CLOSED"@,
        }
    }

    /// The name of the state.
    pub fn text(&self) -> (r: String)
        ensures
            r@ == self.spec_text(),
    {
        match self {
            ConnectionState::Connecting => "CONNECTING".to_owned(),
            ConnectionState::HelloSent => "HELLO_SENT".to_owned(),
            ConnectionState::HelloReceived => "HELLO_RECEIVED".to_owned(),
            ConnectionState::Established => "ESTABLISHED".to_owned(),
            ConnectionState::Retry => "RETRY".to_owned(),
            ConnectionState::Closed => "CLOSED".to_owned(),
        }
    }
}

} // verus!
