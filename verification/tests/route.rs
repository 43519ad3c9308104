use rustbond::ip::{IpAddr, IpNet, Ipv4Addr, Ipv6Addr};
use rustbond::route::{Route, RouteTable};
use rustbond::types::{Destination, NextHop, Vni};

fn make_dest(prefix: &str) -> Destination {
    match prefix.parse::<ipnet::IpNet>().unwrap() {
        ipnet::IpNet::V4(net) => {
            let addr = Ipv4Addr::from_octets(&net.addr().octets());
            Destination::new(IpNet::new(IpAddr::V4(addr), net.prefix_len()).unwrap())
        }
        ipnet::IpNet::V6(net) => {
            let addr = Ipv6Addr::from_octets(&net.addr().octets());
            Destination::new(IpNet::new(IpAddr::V6(addr), net.prefix_len()).unwrap())
        }
    }
}

fn make_hop(addr: &str) -> NextHop {
    let net: ipnet::Ipv6Net = format!("{}/128", addr).parse().unwrap();
    NextHop::standard(Ipv6Addr::from_octets(&net.addr().octets()))
}

#[test]
fn test_add_and_check() {
    let mut table = RouteTable::new();
    let vni = Vni(100);
    let dest = make_dest("10.0.1.0/24");
    let hop = make_hop("2001:db8::1");

    assert!(!table.next_hop_exists(vni, &dest, &hop));
    assert!(table.add_next_hop(vni, dest.clone(), hop.clone()));
    assert!(table.next_hop_exists(vni, &dest, &hop));
    assert!(!table.add_next_hop(vni, dest, hop));
}

#[test]
fn test_remove() {
    let mut table = RouteTable::new();
    let vni = Vni(100);
    let dest = make_dest("10.0.1.0/24");
    let hop1 = make_hop("2001:db8::1");
    let hop2 = make_hop("2001:db8::2");

    table.add_next_hop(vni, dest.clone(), hop1.clone());
    table.add_next_hop(vni, dest.clone(), hop2.clone());

    let (removed, remaining) = table.remove_next_hop(vni, &dest, &hop1);
    assert!(removed);
    assert_eq!(remaining, 1);

    let (removed, remaining) = table.remove_next_hop(vni, &dest, &hop2);
    assert!(removed);
    assert_eq!(remaining, 0);

    assert!(table.is_empty());
}

#[test]
fn test_get_routes() {
    let mut table = RouteTable::new();
    let vni = Vni(100);

    table.add_next_hop(vni, make_dest("10.0.1.0/24"), make_hop("2001:db8::1"));
    table.add_next_hop(vni, make_dest("10.0.2.0/24"), make_hop("2001:db8::2"));

    let routes = table.get_routes_by_vni(vni);
    assert_eq!(routes.len(), 2);
}

#[test]
fn removing_what_is_not_there() {
    let mut table = RouteTable::default();
    let dest = make_dest("10.0.1.0/24");
    let hop1 = make_hop("2001:db8::1");
    let hop2 = make_hop("2001:db8::2");
    assert_eq!(table.remove_next_hop(Vni(1), &dest, &hop1), (false, 0));
    table.add_next_hop(Vni(1), dest, hop1);
    assert_eq!(table.remove_next_hop(Vni(1), &dest, &hop2), (false, 1));
    assert_eq!(table.remove_next_hop(Vni(2), &dest, &hop1), (false, 0));
    assert_eq!(table.len(), 1);
}

#[test]
fn vnis_are_independent() {
    let mut table = RouteTable::new();
    let dest = make_dest("10.0.1.0/24");
    let hop = make_hop("2001:db8::1");
    table.add_next_hop(Vni(1), dest, hop);
    table.add_next_hop(Vni(2), dest, hop);
    table.add_next_hop(Vni(2), make_dest("2001:db8::/32"), hop);
    assert_eq!(table.len(), 3);
    let mut vnis: Vec<u32> = table.get_vnis().iter().map(|vni| vni.0).collect();
    vnis.sort();
    assert_eq!(vnis, vec![1, 2]);

    let removed = table.remove_vni(Vni(2));
    assert_eq!(removed.len(), 2);
    assert!(removed.contains(&Route::new(dest, hop)));
    assert_eq!(table.get_all_routes(), vec![(Vni(1), Route::new(dest, hop))]);
    assert!(table.remove_vni(Vni(2)).is_empty());

    table.clear();
    assert!(table.is_empty());
    assert!(table.get_vnis().is_empty());
}

#[test]
fn destinations_are_grouped() {
    let mut table = RouteTable::new();
    let dest1 = make_dest("10.0.1.0/24");
    let dest2 = make_dest("10.0.2.0/24");
    let hop1 = make_hop("2001:db8::1");
    let hop2 = make_hop("2001:db8::2");
    table.add_next_hop(Vni(1), dest1, hop1);
    table.add_next_hop(Vni(1), dest2, hop1);
    table.add_next_hop(Vni(1), dest1, hop2);
    table.add_next_hop(Vni(2), dest1, hop1);

    let grouped = table.get_destinations_by_vni(Vni(1));
    assert_eq!(grouped.len(), 2);
    for (dest, hops) in &grouped {
        if *dest == dest1 {
            assert_eq!(hops.len(), 2);
            assert!(hops.contains(&hop1) && hops.contains(&hop2));
        } else {
            assert_eq!((*dest, hops.clone()), (dest2, vec![hop1]));
        }
    }
    assert!(table.get_destinations_by_vni(Vni(3)).is_empty());
}

#[test]
fn route_text() {
    let route = Route::new(make_dest("10.0.1.0/24"), make_hop("2001:db8::1"));
    assert_eq!(route.text(), "10.0.1.0/24 via 2001:db8::1");
    let route = Route::new(
        make_dest("2001:db8::/32"),
        NextHop::nat_ports(Ipv6Addr::new(0, 0, 0, 0, 0, 0, 0, 1), 1000, 2000),
    );
    assert_eq!(route.text(), "2001:db8::/32 via ::1 [NAT ports 1000-2000]");
}
