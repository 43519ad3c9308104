use std::collections::HashSet;

use rustbond::error::Error;
use rustbond::ip::{IpAddr, IpNet, Ipv4Addr, Ipv6Addr};
use rustbond::proto;
use rustbond::types::{
    Action, ConnectionState, Destination, IpVersion, NextHop, NextHopType, Vni,
};

fn localhost() -> Ipv6Addr {
    Ipv6Addr::new(0, 0, 0, 0, 0, 0, 0, 1)
}

fn parse_net(text: &str) -> IpNet {
    match text.parse::<ipnet::IpNet>().unwrap() {
        ipnet::IpNet::V4(net) => {
            let addr = Ipv4Addr::from_octets(&net.addr().octets());
            IpNet::new(IpAddr::V4(addr), net.prefix_len()).unwrap()
        }
        ipnet::IpNet::V6(net) => {
            let addr = Ipv6Addr::from_octets(&net.addr().octets());
            IpNet::new(IpAddr::V6(addr), net.prefix_len()).unwrap()
        }
    }
}

fn is_protocol<T>(result: Result<T, Error>, text: &str) -> bool {
    match result {
        Err(Error::Protocol(s)) => s == text,
        _ => false,
    }
}

// Vni tests

#[test]
fn test_vni_from_u32() {
    let vni: Vni = 100u32.into();
    assert_eq!(vni.0, 100);
}

#[test]
fn test_vni_into_u32() {
    let vni = Vni(200);
    let val: u32 = vni.into();
    assert_eq!(val, 200);
}

#[test]
fn test_vni_display() {
    let vni = Vni(12345);
    assert_eq!(vni.text(), "12345");
}

#[test]
fn vni_text_bounds() {
    assert_eq!(Vni(0).text(), "0");
    assert_eq!(Vni(10).text(), "10");
    assert_eq!(Vni(u32::MAX).text(), "4294967295");
}

#[test]
fn test_vni_hash() {
    let mut set = HashSet::new();
    set.insert(Vni(100));
    set.insert(Vni(100));
    set.insert(Vni(200));
    assert_eq!(set.len(), 2);
}

// IpVersion tests

#[test]
fn test_ip_version_from_proto() {
    assert_eq!(IpVersion::from(proto::IpVersion::IPv4), IpVersion::V4);
    assert_eq!(IpVersion::from(proto::IpVersion::IPv6), IpVersion::V6);
}

#[test]
fn test_ip_version_to_proto() {
    assert_eq!(proto::IpVersion::from(IpVersion::V4), proto::IpVersion::IPv4);
    assert_eq!(proto::IpVersion::from(IpVersion::V6), proto::IpVersion::IPv6);
}

// Action tests

#[test]
fn test_action_from_proto() {
    assert_eq!(Action::from(proto::Action::Add), Action::Add);
    assert_eq!(Action::from(proto::Action::Remove), Action::Remove);
}

#[test]
fn test_action_to_proto() {
    assert_eq!(proto::Action::from(Action::Add), proto::Action::Add);
    assert_eq!(proto::Action::from(Action::Remove), proto::Action::Remove);
}

// NextHopType tests

#[test]
fn test_next_hop_type_default() {
    assert_eq!(NextHopType::default(), NextHopType::Standard);
}

#[test]
fn test_next_hop_type_display() {
    assert_eq!(NextHopType::Standard.text(), "STANDARD");
    assert_eq!(NextHopType::Nat.text(), "NAT");
    assert_eq!(NextHopType::LoadBalancerTarget.text(), "LOADBALANCER_TARGET");
}

#[test]
fn test_next_hop_type_from_proto() {
    assert_eq!(
        NextHopType::from(proto::NextHopType::Standard),
        NextHopType::Standard
    );
    assert_eq!(NextHopType::from(proto::NextHopType::Nat), NextHopType::Nat);
    assert_eq!(
        NextHopType::from(proto::NextHopType::LoadbalancerTarget),
        NextHopType::LoadBalancerTarget
    );
}

#[test]
fn test_next_hop_type_to_proto() {
    assert_eq!(
        proto::NextHopType::from(NextHopType::Standard),
        proto::NextHopType::Standard
    );
    assert_eq!(
        proto::NextHopType::from(NextHopType::Nat),
        proto::NextHopType::Nat
    );
    assert_eq!(
        proto::NextHopType::from(NextHopType::LoadBalancerTarget),
        proto::NextHopType::LoadbalancerTarget
    );
}

#[test]
fn schema_numbers() {
    assert_eq!(proto::IpVersion::IPv4.number(), 0);
    assert_eq!(proto::IpVersion::IPv6.number(), 1);
    assert_eq!(proto::Action::Add.number(), 0);
    assert_eq!(proto::Action::Remove.number(), 1);
    assert_eq!(proto::NextHopType::Standard.number(), 0);
    assert_eq!(proto::NextHopType::Nat.number(), 1);
    assert_eq!(proto::NextHopType::LoadbalancerTarget.number(), 2);
    assert_eq!(proto::NextHopType::from_number(3), None);
    assert_eq!(proto::Action::from_number(-1), None);
}

// Destination tests

#[test]
fn test_destination_from_ipv4() {
    let dest = Destination::from_ipv4(Ipv4Addr::new(10, 0, 1, 0), 24);
    assert_eq!(dest.prefix.text(), "10.0.1.0/24");
    assert_eq!(dest.ip_version(), IpVersion::V4);
}

#[test]
fn test_destination_from_ipv6() {
    let dest = Destination::from_ipv6(Ipv6Addr::new(0x2001, 0xdb8, 0, 0, 0, 0, 0, 0), 64);
    assert_eq!(dest.prefix.text(), "2001:db8::/64");
    assert_eq!(dest.ip_version(), IpVersion::V6);
}

#[test]
fn test_destination_display() {
    let dest = Destination::from_ipv4(Ipv4Addr::new(192, 168, 1, 0), 24);
    assert_eq!(dest.text(), "192.168.1.0/24");
}

#[test]
fn test_destination_new() {
    let prefix = parse_net("172.16.0.0/16");
    let dest = Destination::new(prefix);
    assert_eq!(dest.prefix.text(), "172.16.0.0/16");
}

#[test]
fn test_destination_hash() {
    let mut set = HashSet::new();
    set.insert(Destination::from_ipv4(Ipv4Addr::new(10, 0, 0, 0), 8));
    set.insert(Destination::from_ipv4(Ipv4Addr::new(10, 0, 0, 0), 8));
    set.insert(Destination::from_ipv4(Ipv4Addr::new(10, 0, 0, 0), 16));
    assert_eq!(set.len(), 2);
}

#[test]
fn test_destination_to_proto_ipv4() {
    let dest = Destination::from_ipv4(Ipv4Addr::new(10, 0, 1, 0), 24);
    let proto_dest = proto::Destination::from(&dest);
    assert_eq!(proto_dest.ip_version, proto::IpVersion::IPv4.number());
    assert_eq!(proto_dest.prefix, vec![10, 0, 1, 0]);
    assert_eq!(proto_dest.prefix_length, 24);
}

#[test]
fn test_destination_to_proto_ipv6() {
    let dest = Destination::from_ipv6(Ipv6Addr::new(0x2001, 0xdb8, 0, 0, 0, 0, 0, 1), 128);
    let proto_dest = proto::Destination::from(&dest);
    assert_eq!(proto_dest.ip_version, proto::IpVersion::IPv6.number());
    assert_eq!(proto_dest.prefix.len(), 16);
    assert_eq!(proto_dest.prefix_length, 128);
}

#[test]
fn test_destination_from_proto_ipv4() {
    let proto_dest = proto::Destination {
        ip_version: proto::IpVersion::IPv4.number(),
        prefix: vec![192, 168, 0, 0],
        prefix_length: 16,
    };
    let dest = Destination::try_from(proto_dest).unwrap();
    assert_eq!(dest.prefix.text(), "192.168.0.0/16");
}

#[test]
fn test_destination_from_proto_ipv6() {
    let proto_dest = proto::Destination {
        ip_version: proto::IpVersion::IPv6.number(),
        prefix: vec![0x20, 0x01, 0x0d, 0xb8, 0, 0, 0, 0, 0, 0, 0, 0, 0, 0, 0, 0],
        prefix_length: 32,
    };
    let dest = Destination::try_from(proto_dest).unwrap();
    assert_eq!(dest.prefix.text(), "2001:db8::/32");
}

#[test]
fn test_destination_from_proto_invalid_ipv4_length() {
    let proto_dest = proto::Destination {
        ip_version: proto::IpVersion::IPv4.number(),
        prefix: vec![10, 0, 1], // Only 3 bytes
        prefix_length: 24,
    };
    assert!(Destination::try_from(proto_dest).is_err());
}

#[test]
fn test_destination_from_proto_invalid_ipv6_length() {
    let proto_dest = proto::Destination {
        ip_version: proto::IpVersion::IPv6.number(),
        prefix: vec![0x20, 0x01, 0x0d, 0xb8], // Only 4 bytes
        prefix_length: 32,
    };
    assert!(Destination::try_from(proto_dest).is_err());
}

#[test]
fn destination_from_proto_errors() {
    let read = |ip_version: i32, prefix: Vec<u8>, prefix_length: u32| {
        Destination::try_from(proto::Destination {
            ip_version,
            prefix,
            prefix_length,
        })
    };
    assert!(is_protocol(
        read(0, vec![10, 0, 1], 24),
        "invalid IPv4 address length"
    ));
    assert!(is_protocol(
        read(1, vec![10, 0, 1, 0], 24),
        "invalid IPv6 address length"
    ));
    assert!(is_protocol(read(2, vec![10, 0, 1, 0], 24), "invalid IP version"));
    assert!(is_protocol(read(0, vec![10, 0, 1, 0], 33), "invalid prefix length"));
    assert!(is_protocol(read(1, vec![0; 16], 129), "invalid prefix length"));
    // Only the lowest byte of the prefix length counts.
    assert_eq!(read(0, vec![10, 0, 1, 0], 256 + 24).unwrap().text(), "10.0.1.0/24");
}

#[test]
fn destination_round_trip() {
    let v4 = Destination::from_ipv4(Ipv4Addr::new(10, 255, 1, 128), 25);
    assert_eq!(Destination::try_from(proto::Destination::from(&v4)).unwrap(), v4);
    let v6 = Destination::from_ipv6(Ipv6Addr::new(0xfe80, 1, 2, 3, 4, 5, 6, 0xffff), 127);
    assert_eq!(Destination::try_from(proto::Destination::from(&v6)).unwrap(), v6);
}

#[test]
fn prefix_lengths() {
    let v4 = IpAddr::V4(Ipv4Addr::new(10, 0, 0, 0));
    assert!(IpNet::new(v4, 32).is_some());
    assert!(IpNet::new(v4, 33).is_none());
    let v6 = IpAddr::V6(localhost());
    assert!(IpNet::new(v6, 128).is_some());
    assert!(IpNet::new(v6, 129).is_none());
    let net = parse_net("10.1.2.3/20");
    assert_eq!(net.addr(), IpAddr::V4(Ipv4Addr::new(10, 1, 2, 3)));
    assert_eq!(net.prefix_len(), 20);
    assert_eq!(net.text(), "10.1.2.3/20");
}

#[test]
fn address_octets() {
    let v4 = Ipv4Addr::new(1, 2, 3, 4);
    assert_eq!(v4.0, 0x01020304);
    assert_eq!(v4.octets(), vec![1, 2, 3, 4]);
    assert_eq!(Ipv4Addr::from_octets(&[1, 2, 3, 4]), v4);
    let v6 = Ipv6Addr::new(0x2001, 0xdb8, 0, 0, 0, 0, 0, 0xa);
    assert_eq!(
        v6.octets(),
        vec![0x20, 0x01, 0x0d, 0xb8, 0, 0, 0, 0, 0, 0, 0, 0, 0, 0, 0, 0x0a]
    );
    assert_eq!(Ipv6Addr::from_octets(&v6.octets()), v6);
    assert_eq!(v6.text(), "2001:db8::a");
}

// NextHop tests

#[test]
fn test_next_hop_standard() {
    let addr = Ipv6Addr::new(0x2001, 0xdb8, 0, 0, 0, 0, 0, 1);
    let hop = NextHop::standard(addr);
    assert_eq!(hop.target_address, addr);
    assert_eq!(hop.target_vni, None);
    assert_eq!(hop.hop_type, NextHopType::Standard);
    assert_eq!(hop.nat_port_range_from, 0);
    assert_eq!(hop.nat_port_range_to, 0);
}

#[test]
fn test_next_hop_standard_with_vni() {
    let addr = Ipv6Addr::new(0x2001, 0xdb8, 0, 0, 0, 0, 0, 2);
    let hop = NextHop::standard_with_vni(addr, 200);
    assert_eq!(hop.target_address, addr);
    assert_eq!(hop.target_vni, Some(200));
    assert_eq!(hop.hop_type, NextHopType::Standard);
}

#[test]
fn test_next_hop_nat() {
    let addr = Ipv6Addr::new(0x2001, 0xdb8, 0, 0, 0, 0, 0, 3);
    let hop = NextHop::nat_ports(addr, 30000, 40000);
    assert_eq!(hop.target_address, addr);
    assert_eq!(hop.hop_type, NextHopType::Nat);
    assert_eq!(hop.nat_port_range_from, 30000);
    assert_eq!(hop.nat_port_range_to, 40000);
}

#[test]
fn test_next_hop_load_balancer() {
    let addr = Ipv6Addr::new(0x2001, 0xdb8, 0, 0, 0, 0, 0, 4);
    let hop = NextHop::load_balancer(addr);
    assert_eq!(hop.target_address, addr);
    assert_eq!(hop.hop_type, NextHopType::LoadBalancerTarget);
}

#[test]
fn test_next_hop_display_standard() {
    let hop = NextHop::standard(localhost());
    assert_eq!(hop.text(), "::1");
}

#[test]
fn test_next_hop_display_with_vni() {
    let hop = NextHop::standard_with_vni(localhost(), 100);
    assert_eq!(hop.text(), "::1 (VNI: 100)");
}

#[test]
fn test_next_hop_display_nat() {
    let hop = NextHop::nat_ports(localhost(), 1000, 2000);
    assert_eq!(hop.text(), "::1 [NAT ports 1000-2000]");
}

#[test]
fn test_next_hop_display_lb() {
    let hop = NextHop::load_balancer(localhost());
    assert_eq!(hop.text(), "::1 [LB]");
}

#[test]
fn test_next_hop_to_proto() {
    let hop = NextHop::nat_ports(
        Ipv6Addr::new(0x2001, 0xdb8, 0, 0, 0, 0, 0, 5),
        10000,
        20000,
    );
    let proto_hop = proto::NextHop::from(&hop);
    assert_eq!(proto_hop.target_address.len(), 16);
    assert_eq!(proto_hop.hop_type, proto::NextHopType::Nat.number());
    assert_eq!(proto_hop.nat_port_range_from, 10000);
    assert_eq!(proto_hop.nat_port_range_to, 20000);
}

#[test]
fn test_next_hop_from_proto() {
    let proto_hop = proto::NextHop {
        target_address: vec![0x20, 0x01, 0x0d, 0xb8, 0, 0, 0, 0, 0, 0, 0, 0, 0, 0, 0, 6],
        target_vni: 300,
        hop_type: proto::NextHopType::Standard.number(),
        nat_port_range_from: 0,
        nat_port_range_to: 0,
    };
    let hop = NextHop::try_from(proto_hop).unwrap();
    assert_eq!(
        hop.target_address,
        Ipv6Addr::new(0x2001, 0xdb8, 0, 0, 0, 0, 0, 6)
    );
    assert_eq!(hop.target_vni, Some(300));
    assert_eq!(hop.hop_type, NextHopType::Standard);
}

#[test]
fn test_next_hop_from_proto_no_vni() {
    let proto_hop = proto::NextHop {
        target_address: vec![0, 0, 0, 0, 0, 0, 0, 0, 0, 0, 0, 0, 0, 0, 0, 1],
        target_vni: 0,
        hop_type: proto::NextHopType::Standard.number(),
        nat_port_range_from: 0,
        nat_port_range_to: 0,
    };
    let hop = NextHop::try_from(proto_hop).unwrap();
    assert_eq!(hop.target_vni, None);
}

#[test]
fn test_next_hop_from_proto_invalid_address() {
    let proto_hop = proto::NextHop {
        target_address: vec![1, 2, 3], // Invalid length
        target_vni: 0,
        hop_type: proto::NextHopType::Standard.number(),
        nat_port_range_from: 0,
        nat_port_range_to: 0,
    };
    assert!(NextHop::try_from(proto_hop).is_err());
}

#[test]
fn next_hop_from_proto_errors() {
    let read = |target_address: Vec<u8>, hop_type: i32, from: u32, to: u32| {
        NextHop::try_from(proto::NextHop {
            target_address,
            target_vni: 0,
            hop_type,
            nat_port_range_from: from,
            nat_port_range_to: to,
        })
    };
    assert!(is_protocol(
        read(vec![1, 2, 3], 3, 0, 0),
        "invalid target address length"
    ));
    assert!(is_protocol(read(vec![0; 16], 3, 0, 0), "invalid next hop type"));
    assert!(is_protocol(read(vec![0; 16], -1, 0, 0), "invalid next hop type"));
    // Only the lowest 16 bits of the ports count.
    let hop = read(vec![0; 16], 1, 65536 + 7, 3 * 65536).unwrap();
    assert_eq!((hop.nat_port_range_from, hop.nat_port_range_to), (7, 0));
}

#[test]
fn next_hop_round_trip() {
    let hop = NextHop {
        target_address: Ipv6Addr::new(0x2001, 0xdb8, 0, 0, 0, 0, 0, 6),
        target_vni: Some(300),
        hop_type: NextHopType::LoadBalancerTarget,
        nat_port_range_from: 1,
        nat_port_range_to: 65535,
    };
    assert_eq!(NextHop::try_from(proto::NextHop::from(&hop)).unwrap(), hop);
    // A target VNI of zero is read as none.
    let zero = NextHop::standard_with_vni(localhost(), 0);
    assert_eq!(
        NextHop::try_from(proto::NextHop::from(&zero)).unwrap(),
        NextHop::standard(localhost())
    );
}

#[test]
fn test_next_hop_hash() {
    let mut set = HashSet::new();
    let hop1 = NextHop::standard(localhost());
    let hop2 = NextHop::standard(localhost());
    let hop3 = NextHop::nat_ports(localhost(), 1000, 2000);
    set.insert(hop1);
    set.insert(hop2);
    set.insert(hop3);
    assert_eq!(set.len(), 2);
}

// ConnectionState tests

#[test]
fn test_connection_state_display() {
    assert_eq!(ConnectionState::Connecting.text(), "CONNECTING");
    assert_eq!(ConnectionState::HelloSent.text(), "HELLO_SENT");
    assert_eq!(ConnectionState::HelloReceived.text(), "HELLO_RECEIVED");
    assert_eq!(ConnectionState::Established.text(), "ESTABLISHED");
    assert_eq!(ConnectionState::Retry.text(), "RETRY");
    assert_eq!(ConnectionState::Closed.text(), "CLOSED");
}

#[test]
fn test_connection_state_equality() {
    assert_eq!(ConnectionState::Established, ConnectionState::Established);
    assert_ne!(ConnectionState::Connecting, ConnectionState::Established);
}
