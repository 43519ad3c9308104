use std::collections::HashMap;

use rustbond::error::Error;
use rustbond::ip::{IpAddr, Ipv4Addr, Ipv6Addr};
use rustbond::netlink::{
    KernelRoute, NetlinkClient, NetlinkConfig, RouteRequest, METALBOND_RT_PROTO,
};
use rustbond::types::{Destination, NextHop, Vni};

fn config() -> NetlinkConfig {
    let mut vni_table_map = HashMap::new();
    vni_table_map.insert(100, 100);
    vni_table_map.insert(200, 1000);
    NetlinkConfig {
        vni_table_map,
        link_name: "ip6tnl0".to_string(),
    }
}

fn v4() -> Destination {
    Destination::from_ipv4(Ipv4Addr::new(10, 0, 1, 0), 24)
}

fn v6() -> Destination {
    Destination::from_ipv6(Ipv6Addr::new(0x2001, 0xdb8, 0, 0, 0, 0, 0, 0), 32)
}

fn hop() -> NextHop {
    NextHop::standard(Ipv6Addr::new(0x2001, 0xdb8, 0, 0, 0, 0, 0, 1))
}

fn kernel_route(header_table: u8, tables: Vec<u32>, protocol: u8, dest: Destination) -> KernelRoute {
    KernelRoute {
        header_table,
        tables,
        protocol,
        destinations: vec![dest.prefix.addr()],
        prefix_length: dest.prefix.prefix_len(),
    }
}

fn text<T>(result: Result<T, Error>) -> String {
    match result {
        Err(Error::Netlink(text)) => text,
        _ => panic!("expected Netlink error"),
    }
}

#[test]
fn tunnel_device() {
    let client = NetlinkClient::new(config(), Some(7)).unwrap();
    assert_eq!(client.link_index, 7);
    assert_eq!(
        text(NetlinkClient::new(config(), None)),
        "Cannot find tunnel device 'ip6tnl0'"
    );
}

#[test]
fn routes_to_install() {
    let client = NetlinkClient::new(config(), Some(7)).unwrap();
    assert_eq!(METALBOND_RT_PROTO, 254);
    assert_eq!(
        client.add_route(Vni(100), &v4(), &hop()).unwrap(),
        RouteRequest {
            destination: v4(),
            gateway: Some(hop().target_address),
            output_interface: 7,
            table: 100,
            protocol: 254,
        }
    );
    assert_eq!(
        client.add_route(Vni(200), &v6(), &hop()).unwrap(),
        RouteRequest {
            destination: v6(),
            gateway: Some(hop().target_address),
            output_interface: 7,
            table: 1000,
            protocol: 254,
        }
    );
    assert_eq!(
        text(client.add_route(Vni(300), &v4(), &hop())),
        "No route table ID configured for VNI 300"
    );
    assert_eq!(client.table(Vni(100)).unwrap(), 100);
}

#[test]
fn routes_to_remove() {
    let client = NetlinkClient::new(config(), Some(7)).unwrap();
    let longer = Destination::from_ipv4(Ipv4Addr::new(10, 0, 1, 0), 25);
    let routes = vec![
        kernel_route(100, vec![], 3, v4()),
        kernel_route(100, vec![], 254, longer),
        kernel_route(100, vec![], 254, v6()),
        kernel_route(100, vec![100], 254, v4()),
        kernel_route(100, vec![], 254, v4()),
        kernel_route(252, vec![1000], 254, v4()),
    ];
    assert_eq!(client.remove_route(Vni(100), &v4(), &routes).unwrap(), Some(3));
    assert_eq!(client.remove_route(Vni(200), &v4(), &routes).unwrap(), Some(5));
    assert_eq!(client.remove_route(Vni(100), &v6(), &routes).unwrap(), Some(2));
    assert_eq!(client.remove_route(Vni(200), &v6(), &routes).unwrap(), None);
    assert_eq!(
        text(client.remove_route(Vni(300), &v4(), &routes)),
        "No route table ID configured for VNI 300"
    );
}

#[test]
fn stale_routes() {
    let routes = vec![
        kernel_route(100, vec![], 254, v4()),
        kernel_route(100, vec![], 2, v4()),
        kernel_route(252, vec![356], 254, v6()),
        kernel_route(100, vec![100], 254, v6()),
    ];
    assert_eq!(NetlinkClient::cleanup_routes_for_table(100, &routes), vec![0, 3]);
    // Table 356 is not table 100, although its lowest byte is the same
    assert_eq!(NetlinkClient::cleanup_routes_for_table(356, &routes), vec![2]);
    // The header tells the table or an attribute
    let both = vec![kernel_route(100, vec![200], 254, v4())];
    assert_eq!(NetlinkClient::cleanup_routes_for_table(100, &both), vec![0]);
    assert_eq!(NetlinkClient::cleanup_routes_for_table(200, &both), vec![0]);
    assert!(NetlinkClient::cleanup_routes_for_table(300, &both).is_empty());
}

#[test]
fn installed_route_is_found() {
    let client = NetlinkClient::new(config(), Some(7)).unwrap();
    let request = client.add_route(Vni(200), &v6(), &hop()).unwrap();
    let reported = kernel_route(252, vec![request.table], request.protocol, request.destination);
    assert!(reported.matches(&v6(), 1000));
    assert!(reported.is_stale(1000));
    assert!(!reported.matches(&v4(), 1000));
    assert_eq!(reported.destinations, vec![IpAddr::V6(Ipv6Addr::new(0x2001, 0xdb8, 0, 0, 0, 0, 0, 0))]);
}

#[test]
fn failures() {
    assert_eq!(
        text(Err::<(), Error>(NetlinkClient::add_failed(&v4(), 100, "no"))),
        "Cannot add IPv4 route to 10.0.1.0/24 (table 100): no"
    );
    assert_eq!(
        text(Err::<(), Error>(NetlinkClient::add_failed(&v6(), 1000, "no"))),
        "Cannot add IPv6 route to 2001:db8::/32 (table 1000): no"
    );
    assert_eq!(
        text(Err::<(), Error>(NetlinkClient::remove_failed(&v4(), 100, "gone"))),
        "Cannot remove route to 10.0.1.0/24 (table 100): gone"
    );
}
