use rustbond::client::{ClientState, MetalBondClient, ServerId};
use rustbond::error::Error;
use rustbond::handler::RouteEvent;
use rustbond::ip::{Ipv4Addr, Ipv6Addr};
use rustbond::multi::{MultiServerClient, MultiServerState};
use rustbond::peer::PeerCommand;
use rustbond::route::Route;
use rustbond::types::ConnectionState::{Closed, Connecting, Established, HelloSent, Retry};
use rustbond::types::{Action, ConnectionState, Destination, NextHop, Vni};
use rustbond::wire::Message;

fn dest(last: u8) -> Destination {
    Destination::from_ipv4(Ipv4Addr::new(10, 0, last, 0), 24)
}

fn hop(last: u16) -> NextHop {
    NextHop::standard(Ipv6Addr::new(0x2001, 0xdb8, 0, 0, 0, 0, 0, last))
}

fn client(states: &[ConnectionState]) -> MetalBondClient {
    let addrs = vec!["[::1]:4711"; states.len()];
    let mut client = MetalBondClient::connect(&addrs);
    for (i, state) in states.iter().enumerate() {
        client.set_server_state(ServerId(i), *state);
    }
    client
}

#[test]
fn new_client() {
    let client = MetalBondClient::connect(&["[::1]:4711", "[::1]:4712"]);
    assert_eq!(client.server_count(), 2);
    assert_eq!(client.server_addr(ServerId(0)), Some("[::1]:4711"));
    assert_eq!(client.server_addr(ServerId(1)), Some("[::1]:4712"));
    assert_eq!(client.server_addr(ServerId(2)), None);
    assert_eq!(
        client.server_states(),
        vec![
            (ServerId(0), ConnectionState::Connecting),
            (ServerId(1), ConnectionState::Connecting)
        ]
    );
    assert_eq!(client.state(), ClientState::Disconnected);
    assert!(client.is_route_table_empty());
    assert!(client.resync().is_empty());
}

#[test]
fn client_states() {
    assert_eq!(client(&[Connecting]).state(), ClientState::Disconnected);
    assert_eq!(client(&[HelloSent, Retry]).state(), ClientState::Disconnected);
    assert_eq!(client(&[Established]).state(), ClientState::FullyConnected);
    assert_eq!(
        client(&[Established, Established]).state(),
        ClientState::FullyConnected
    );
    assert_eq!(
        client(&[Retry, Established, Closed]).state(),
        ClientState::PartiallyConnected {
            connected: 1,
            total: 3
        }
    );
    assert_eq!(client(&[Closed, Retry]).state(), ClientState::Closed);
    assert_eq!(client(&[Retry, Established, Closed]).connected_count(), 1);
    assert!(client(&[Retry, Established]).is_established());
    assert!(!client(&[Retry, Closed]).is_established());
}

#[test]
fn multi_server_states() {
    let none = MultiServerClient::connect(&[]);
    assert_eq!(none.state(), MultiServerState::Disconnected);
    assert!(matches!(
        none.any_established_outcome(),
        Some(Err(Error::Closed))
    ));
    assert!(matches!(none.all_established_outcome(), Some(Ok(()))));

    let mut two = MultiServerClient::connect(&["a", "b"]);
    assert_eq!(two.state(), MultiServerState::Disconnected);
    two.set_server_state(ServerId(1), ConnectionState::Established);
    assert_eq!(
        two.state(),
        MultiServerState::PartiallyConnected {
            connected: 1,
            total: 2
        }
    );
    two.set_server_state(ServerId(0), ConnectionState::Established);
    assert_eq!(two.state(), MultiServerState::FullyConnected);
    two.set_server_state(ServerId(0), ConnectionState::Closed);
    two.set_server_state(ServerId(1), ConnectionState::Closed);
    assert_eq!(two.state(), MultiServerState::Closed);
    assert_eq!(two.server_count(), 2);
    assert_eq!(two.connected_count(), 0);
    assert_eq!(two.server_addr(ServerId(1)), Some("b"));
}

#[test]
fn waiting_for_servers() {
    assert!(client(&[Connecting, Closed]).any_established_outcome().is_none());
    assert!(matches!(
        client(&[Established, Closed]).any_established_outcome(),
        Some(Ok(()))
    ));
    assert!(matches!(
        client(&[Closed, Closed]).any_established_outcome(),
        Some(Err(Error::Closed))
    ));
    assert!(client(&[Established, Connecting]).all_established_outcome().is_none());
    assert!(matches!(
        client(&[Established, Established]).all_established_outcome(),
        Some(Ok(()))
    ));
    assert!(matches!(
        client(&[Established, Closed]).all_established_outcome(),
        Some(Err(Error::Closed))
    ));
}

#[test]
fn subscriptions_go_to_connected_servers() {
    let mut client = client(&[Established, Retry, Established]);
    let command = PeerCommand::Subscribe(Vni(100));
    assert_eq!(
        client.subscribe(Vni(100)),
        vec![(ServerId(0), command), (ServerId(2), command)]
    );
    assert_eq!(client.resync(), vec![Message::Subscribe { vni: Vni(100) }]);
    let command = PeerCommand::Unsubscribe(Vni(100));
    assert_eq!(
        client.unsubscribe(Vni(100)),
        vec![
            (ServerId(0), command),
            (ServerId(1), command),
            (ServerId(2), command)
        ]
    );
    assert!(client.resync().is_empty());
}

#[test]
fn announcements() {
    let mut client = client(&[Retry, Established]);
    let update = |action: Action| {
        PeerCommand::SendUpdate(Message::Update {
            action,
            vni: Vni(100),
            destination: dest(1),
            next_hop: hop(1),
        })
    };
    assert!(matches!(
        client.withdraw(Vni(100), dest(1), hop(1)),
        Err(Error::RouteNotFound)
    ));
    assert_eq!(
        client.announce(Vni(100), dest(1), hop(1)).unwrap(),
        vec![(ServerId(1), update(Action::Add))]
    );
    assert!(matches!(
        client.announce(Vni(100), dest(1), hop(1)),
        Err(Error::RouteAlreadyAnnounced)
    ));
    assert_eq!(
        client.get_announced_routes(),
        vec![(Vni(100), Route::new(dest(1), hop(1)))]
    );
    assert_eq!(
        client.resync(),
        vec![Message::Update {
            action: Action::Add,
            vni: Vni(100),
            destination: dest(1),
            next_hop: hop(1),
        }]
    );
    assert_eq!(
        client.withdraw(Vni(100), dest(1), hop(1)).unwrap(),
        vec![
            (ServerId(0), update(Action::Remove)),
            (ServerId(1), update(Action::Remove))
        ]
    );
    assert!(client.get_announced_routes().is_empty());
    assert!(client.resync().is_empty());
}

#[test]
fn something_must_be_sent() {
    assert!(MetalBondClient::sent_outcome(true).is_ok());
    assert!(matches!(
        MetalBondClient::sent_outcome(false),
        Err(Error::NotEstablished)
    ));
}

#[test]
fn received_routes() {
    let mut client = MetalBondClient::connect(&["a", "b"]);
    let added = |vni: u32, d: u8, h: u16| RouteEvent::Added {
        vni: Vni(vni),
        route: Route::new(dest(d), hop(h)),
    };
    let removed = |vni: u32, d: u8, h: u16| RouteEvent::Removed {
        vni: Vni(vni),
        route: Route::new(dest(d), hop(h)),
    };
    let told = client.routes_changed(
        ServerId(0),
        &vec![added(1, 1, 1), added(1, 2, 2), added(2, 1, 1)],
    );
    assert_eq!(told.len(), 3);
    let told = client.routes_changed(ServerId(1), &vec![added(1, 1, 1)]);
    assert!(told.is_empty());
    assert_eq!(client.route_count(), 3);
    let routes = client.get_received_routes(Vni(1));
    assert_eq!(routes.len(), 2);
    assert!(routes.contains(&Route::new(dest(1), hop(1))));
    assert!(routes.contains(&Route::new(dest(2), hop(2))));
    assert_eq!(
        client.get_route_servers(Vni(1), &dest(1), &hop(1)),
        Some(vec![ServerId(0), ServerId(1)])
    );
    assert_eq!(client.get_route_servers(Vni(3), &dest(1), &hop(1)), None);

    let told = client.remove_server_routes(ServerId(0));
    assert_eq!(told.len(), 2);
    assert!(told.contains(&removed(1, 2, 2)) && told.contains(&removed(2, 1, 1)));
    assert_eq!(client.route_count(), 1);
    let told = client.routes_changed(ServerId(1), &vec![removed(1, 1, 1)]);
    assert_eq!(told, vec![removed(1, 1, 1)]);
    assert!(client.is_route_table_empty());
}

#[test]
fn shutting_down() {
    let client = MetalBondClient::connect(&["a", "b"]);
    assert_eq!(
        client.shutdown(),
        vec![
            (ServerId(0), PeerCommand::Shutdown),
            (ServerId(1), PeerCommand::Shutdown)
        ]
    );
}
