use std::collections::HashSet;

use rustbond::handler::RouteEvent;
use rustbond::ip::{IpAddr, IpNet, Ipv4Addr, Ipv6Addr};
use rustbond::origins::{RouteOriginTracker, ServerId};
use rustbond::route::Route;
use rustbond::types::{Destination, NextHop, Vni};

fn make_dest(prefix: &str) -> Destination {
    let net: ipnet::Ipv4Net = prefix.parse().unwrap();
    let addr = Ipv4Addr::from_octets(&net.addr().octets());
    Destination::new(IpNet::new(IpAddr::V4(addr), net.prefix_len()).unwrap())
}

fn make_hop(addr: &str) -> NextHop {
    let net: ipnet::Ipv6Net = format!("{}/128", addr).parse().unwrap();
    NextHop::standard(Ipv6Addr::from_octets(&net.addr().octets()))
}

#[test]
fn client_test_server_id_display() {
    assert_eq!(ServerId(0).text(), "server-0");
    assert_eq!(ServerId(5).text(), "server-5");
}

#[test]
fn client_test_server_id_equality() {
    assert_eq!(ServerId(1), ServerId(1));
    assert_ne!(ServerId(1), ServerId(2));
}

#[test]
fn client_test_server_id_hash() {
    let mut set = HashSet::new();
    set.insert(ServerId(1));
    set.insert(ServerId(1));
    set.insert(ServerId(2));
    assert_eq!(set.len(), 2);
}

#[test]
fn client_test_first_add_returns_true() {
    let mut tracker = RouteOriginTracker::new();
    let vni = Vni(100);
    let dest = make_dest("10.0.1.0/24");
    let hop = make_hop("2001:db8::1");

    assert!(tracker.add_origin(vni, dest.clone(), hop.clone(), ServerId(0)));
}

#[test]
fn client_test_second_add_returns_false() {
    let mut tracker = RouteOriginTracker::new();
    let vni = Vni(100);
    let dest = make_dest("10.0.1.0/24");
    let hop = make_hop("2001:db8::1");

    assert!(tracker.add_origin(vni, dest.clone(), hop.clone(), ServerId(0)));
    assert!(!tracker.add_origin(vni, dest.clone(), hop.clone(), ServerId(1)));
}

#[test]
fn client_test_different_hop_is_new_route() {
    let mut tracker = RouteOriginTracker::new();
    let vni = Vni(100);
    let dest = make_dest("10.0.1.0/24");
    let hop1 = make_hop("2001:db8::1");
    let hop2 = make_hop("2001:db8::2");

    assert!(tracker.add_origin(vni, dest.clone(), hop1.clone(), ServerId(0)));
    // Different hop = different route, should return true
    assert!(tracker.add_origin(vni, dest.clone(), hop2.clone(), ServerId(0)));
}

#[test]
fn client_test_remove_not_last_returns_false() {
    let mut tracker = RouteOriginTracker::new();
    let vni = Vni(100);
    let dest = make_dest("10.0.1.0/24");
    let hop = make_hop("2001:db8::1");

    tracker.add_origin(vni, dest.clone(), hop.clone(), ServerId(0));
    tracker.add_origin(vni, dest.clone(), hop.clone(), ServerId(1));

    // First removal - still have another server
    assert!(!tracker.remove_origin(vni, &dest, &hop, ServerId(0)));
}

#[test]
fn client_test_remove_last_returns_true() {
    let mut tracker = RouteOriginTracker::new();
    let vni = Vni(100);
    let dest = make_dest("10.0.1.0/24");
    let hop = make_hop("2001:db8::1");

    tracker.add_origin(vni, dest.clone(), hop.clone(), ServerId(0));
    tracker.add_origin(vni, dest.clone(), hop.clone(), ServerId(1));

    tracker.remove_origin(vni, &dest, &hop, ServerId(0));
    // Last removal
    assert!(tracker.remove_origin(vni, &dest, &hop, ServerId(1)));
}

#[test]
fn client_test_remove_nonexistent_returns_false() {
    let mut tracker = RouteOriginTracker::new();
    let vni = Vni(100);
    let dest = make_dest("10.0.1.0/24");
    let hop = make_hop("2001:db8::1");

    assert!(!tracker.remove_origin(vni, &dest, &hop, ServerId(0)));
}

#[test]
fn client_test_remove_server_batch() {
    let mut tracker = RouteOriginTracker::new();

    let dest1 = make_dest("10.0.1.0/24");
    let dest2 = make_dest("10.0.2.0/24");
    let hop1 = make_hop("2001:db8::1");
    let hop2 = make_hop("2001:db8::2");

    // Route 1: from servers 0 and 1
    tracker.add_origin(Vni(100), dest1.clone(), hop1.clone(), ServerId(0));
    tracker.add_origin(Vni(100), dest1.clone(), hop1.clone(), ServerId(1));

    // Route 2: only from server 0
    tracker.add_origin(Vni(100), dest2.clone(), hop2.clone(), ServerId(0));

    assert_eq!(tracker.len(), 2);

    // Remove server 0
    let removed = tracker.remove_server(ServerId(0));

    // Only route 2 should be fully removed (was only from server 0)
    assert_eq!(removed.len(), 1);
    assert_eq!(removed[0], (Vni(100), dest2, hop2));

    // Route 1 should still exist (server 1 still has it)
    assert_eq!(tracker.len(), 1);
}

#[test]
fn client_test_get_servers() {
    let mut tracker = RouteOriginTracker::new();
    let vni = Vni(100);
    let dest = make_dest("10.0.1.0/24");
    let hop = make_hop("2001:db8::1");

    assert!(tracker.get_servers(vni, &dest, &hop).is_none());

    tracker.add_origin(vni, dest.clone(), hop.clone(), ServerId(0));
    tracker.add_origin(vni, dest.clone(), hop.clone(), ServerId(2));

    let servers = tracker.get_servers(vni, &dest, &hop).unwrap();
    assert_eq!(servers.len(), 2);
    assert!(servers.contains(&ServerId(0)));
    assert!(servers.contains(&ServerId(2)));
}

#[test]
fn client_test_len_and_is_empty() {
    let mut tracker = RouteOriginTracker::new();
    assert!(tracker.is_empty());
    assert_eq!(tracker.len(), 0);

    let dest = make_dest("10.0.1.0/24");
    let hop = make_hop("2001:db8::1");
    tracker.add_origin(Vni(100), dest.clone(), hop.clone(), ServerId(0));

    assert!(!tracker.is_empty());
    assert_eq!(tracker.len(), 1);
}

fn added(route: Route) -> RouteEvent {
    RouteEvent::Added {
        vni: Vni(100),
        route,
    }
}

fn removed(route: Route) -> RouteEvent {
    RouteEvent::Removed {
        vni: Vni(100),
        route,
    }
}

#[test]
fn user_is_told_once() {
    let mut tracker = RouteOriginTracker::default();
    let route1 = Route::new(make_dest("10.0.1.0/24"), make_hop("2001:db8::1"));
    let route2 = Route::new(make_dest("10.0.1.0/24"), make_hop("2001:db8::2"));

    let told = tracker.deduplicate(ServerId(0), &vec![added(route1), added(route1)]);
    assert_eq!(told, vec![added(route1)]);
    let told = tracker.deduplicate(ServerId(1), &vec![added(route1), added(route2)]);
    assert_eq!(told, vec![added(route2)]);
    let told = tracker.deduplicate(ServerId(0), &vec![removed(route1), removed(route2)]);
    assert_eq!(told, vec![]);
    let told = tracker.deduplicate(ServerId(1), &vec![removed(route1), added(route1)]);
    assert_eq!(told, vec![removed(route1), added(route1)]);
    let told = tracker.deduplicate(ServerId(1), &vec![removed(route1), removed(route2)]);
    assert_eq!(told, vec![removed(route1), removed(route2)]);
    assert!(tracker.is_empty());
}

#[test]
fn all_origins_are_listed() {
    let mut tracker = RouteOriginTracker::new();
    let dest = make_dest("10.0.1.0/24");
    let hop1 = make_hop("2001:db8::1");
    let hop2 = make_hop("2001:db8::2");
    tracker.add_origin(Vni(1), dest, hop1, ServerId(0));
    tracker.add_origin(Vni(1), dest, hop1, ServerId(3));
    tracker.add_origin(Vni(1), dest, hop1, ServerId(3));
    tracker.add_origin(Vni(2), dest, hop2, ServerId(1));
    let all = tracker.get_all();
    assert_eq!(all.len(), 2);
    assert!(all.contains(&((Vni(1), dest, hop1), vec![ServerId(0), ServerId(3)])));
    assert!(all.contains(&((Vni(2), dest, hop2), vec![ServerId(1)])));
    assert_eq!(tracker.keys().len(), 2);
}

#[test]
fn withdrawing_for_a_stranger() {
    let mut tracker = RouteOriginTracker::new();
    let dest = make_dest("10.0.1.0/24");
    let hop = make_hop("2001:db8::1");
    tracker.add_origin(Vni(1), dest, hop, ServerId(0));
    assert!(!tracker.remove_origin(Vni(1), &dest, &hop, ServerId(1)));
    assert_eq!(tracker.get_servers(Vni(1), &dest, &hop), Some(vec![ServerId(0)]));
    assert!(tracker.remove_server(ServerId(1)).is_empty());
    assert_eq!(tracker.len(), 1);
}
