use rustbond::error::Error;
use rustbond::ip::{Ipv4Addr, Ipv6Addr, SocketAddr};
use rustbond::server::{
    accept_hello, accept_keepalive, announce_existing, handle_message, PeerRequest, RoutingActor,
    RoutingCommand, RoutingReply, ServerConfig, MAX_BATCH_MESSAGES, MAX_PENDING_MESSAGES,
};
use rustbond::types::{Action, Destination, NextHop, Vni};
use rustbond::wire::Message;

fn addr(port: u16) -> SocketAddr {
    SocketAddr::V6(Ipv6Addr::new(0, 0, 0, 0, 0, 0, 0, 1), port, 0, 0)
}

fn dest(last: u8) -> Destination {
    Destination::from_ipv4(Ipv4Addr::new(10, 0, last, 0), 24)
}

fn hop(last: u16) -> NextHop {
    NextHop::standard(Ipv6Addr::new(0x2001, 0xdb8, 0, 0, 0, 0, 0, last))
}

fn update(action: Action, vni: u32, d: u8, h: u16) -> Message {
    Message::Update {
        action,
        vni: Vni(vni),
        destination: dest(d),
        next_hop: hop(h),
    }
}

fn text<T>(result: Result<T, Error>) -> String {
    match result {
        Err(Error::Protocol(text)) => text,
        _ => panic!("expected Protocol error"),
    }
}

#[test]
fn default_configuration() {
    assert_eq!(ServerConfig::default().keepalive_interval, 5);
    assert_eq!(MAX_PENDING_MESSAGES, 50_000);
    assert_eq!(MAX_BATCH_MESSAGES, 1000);
}

#[test]
fn updates_go_to_other_subscribers() {
    let mut actor = RoutingActor::new();
    for port in [1, 2, 3, 4] {
        actor.handle_peer_connected(addr(port));
    }
    actor.handle_subscribe(addr(1), Vni(100));
    actor.handle_subscribe(addr(2), Vni(100));
    actor.handle_subscribe(addr(3), Vni(200));
    // Subscribed but not connected
    actor.handle_subscribe(addr(9), Vni(100));

    let sent = actor.handle_update(addr(1), Action::Add, Vni(100), dest(1), hop(1));
    assert_eq!(sent.message, update(Action::Add, 100, 1, 1));
    assert_eq!(sent.recipients, vec![addr(2)]);
    let sent = actor.handle_update(addr(4), Action::Remove, Vni(100), dest(7), hop(1));
    assert_eq!(sent.recipients.len(), 2);
    assert!(sent.recipients.contains(&addr(1)) && sent.recipients.contains(&addr(2)));
    assert_eq!(actor.stats(), (1, 1, 4));

    actor.handle_unsubscribe(addr(2), Vni(100));
    let sent = actor.handle_update(addr(1), Action::Remove, Vni(100), dest(1), hop(1));
    assert!(sent.recipients.is_empty());
    assert_eq!(actor.stats(), (0, 0, 4));
}

#[test]
fn existing_routes_on_subscribe() {
    let mut actor = RoutingActor::default();
    actor.handle_update(addr(1), Action::Add, Vni(100), dest(1), hop(1));
    actor.handle_update(addr(1), Action::Add, Vni(100), dest(1), hop(2));
    actor.handle_update(addr(1), Action::Add, Vni(200), dest(3), hop(3));
    let routes = actor.handle_subscribe(addr(2), Vni(100));
    assert_eq!(routes.len(), 2);
    assert!(routes.contains(&(dest(1), hop(1))) && routes.contains(&(dest(1), hop(2))));
    let messages = announce_existing(Vni(100), &routes);
    assert_eq!(messages.len(), 2);
    assert!(messages.contains(&update(Action::Add, 100, 1, 1)));
    assert!(messages.contains(&update(Action::Add, 100, 1, 2)));
}

#[test]
fn disconnecting_withdraws_routes() {
    let mut actor = RoutingActor::new();
    for port in [1, 2, 3] {
        actor.handle_peer_connected(addr(port));
        actor.handle_subscribe(addr(port), Vni(100));
    }
    actor.handle_update(addr(1), Action::Add, Vni(100), dest(1), hop(1));
    actor.handle_update(addr(1), Action::Add, Vni(200), dest(2), hop(1));
    actor.handle_update(addr(2), Action::Add, Vni(100), dest(3), hop(1));
    // The last peer that announces a route owns it
    actor.handle_update(addr(1), Action::Add, Vni(100), dest(4), hop(1));
    actor.handle_update(addr(2), Action::Add, Vni(100), dest(4), hop(1));

    let sent = actor.handle_peer_disconnected(addr(1));
    assert_eq!(sent.len(), 2);
    for one in &sent {
        if one.message == update(Action::Remove, 100, 1, 1) {
            assert_eq!(one.recipients.len(), 2);
            assert!(one.recipients.contains(&addr(2)) && one.recipients.contains(&addr(3)));
        } else {
            assert_eq!(one.message, update(Action::Remove, 200, 2, 1));
            assert!(one.recipients.is_empty());
        }
    }
    assert_eq!(actor.stats(), (2, 2, 2));
    assert!(actor.handle_peer_disconnected(addr(1)).is_empty());
    assert_eq!(actor.handle_peer_disconnected(addr(2)).len(), 2);
    assert_eq!(actor.stats(), (0, 0, 1));
}

#[test]
fn slow_consumers_are_dropped() {
    let mut actor = RoutingActor::new();
    for port in [1, 2, 3] {
        actor.handle_peer_connected(addr(port));
        actor.handle_subscribe(addr(port), Vni(100));
    }
    actor.handle_update(addr(2), Action::Add, Vni(100), dest(1), hop(1));
    actor.remove_slow_consumers(&vec![addr(2), addr(2)]);
    assert_eq!(actor.stats(), (1, 1, 2));
    let sent = actor.handle_update(addr(1), Action::Add, Vni(100), dest(2), hop(1));
    assert_eq!(sent.recipients, vec![addr(3)]);
}

#[test]
fn commands_are_handled() {
    let mut actor = RoutingActor::new();
    assert!(matches!(
        actor.handle(RoutingCommand::PeerConnected { addr: addr(1) }),
        RoutingReply::Done
    ));
    match actor.handle(RoutingCommand::Update {
        from_addr: addr(2),
        action: Action::Add,
        vni: Vni(100),
        destination: dest(1),
        next_hop: hop(1),
    }) {
        RoutingReply::Distribute(sent) => {
            assert_eq!(sent.len(), 1);
            assert_eq!(sent[0].message, update(Action::Add, 100, 1, 1));
            assert!(sent[0].recipients.is_empty());
        }
        _ => panic!("wrong reply"),
    }
    match actor.handle(RoutingCommand::Subscribe {
        addr: addr(1),
        vni: Vni(100),
    }) {
        RoutingReply::Routes(routes) => assert_eq!(routes, vec![(dest(1), hop(1))]),
        _ => panic!("wrong reply"),
    }
    assert!(matches!(
        actor.handle(RoutingCommand::GetStats),
        RoutingReply::Stats(1, 1, 1)
    ));
    match actor.handle(RoutingCommand::PeerDisconnected { addr: addr(2) }) {
        RoutingReply::Distribute(sent) => assert_eq!(sent[0].recipients, vec![addr(1)]),
        _ => panic!("wrong reply"),
    }
    assert!(matches!(
        actor.handle(RoutingCommand::Unsubscribe {
            addr: addr(1),
            vni: Vni(100)
        }),
        RoutingReply::Done
    ));
    assert!(matches!(
        actor.handle(RoutingCommand::GetStats),
        RoutingReply::Stats(0, 0, 1)
    ));
}

#[test]
fn accepting_a_client() {
    let config = ServerConfig {
        keepalive_interval: 7,
    };
    let hello = |keepalive_interval: u32| {
        Message::Hello {
            keepalive_interval,
            is_server: false,
        }
        .encode()
        .unwrap()
    };
    let reply = Message::Hello {
        keepalive_interval: 7,
        is_server: true,
    };
    assert_eq!(accept_hello(&config, &hello(5)).unwrap(), (reply, 5));
    assert_eq!(accept_hello(&config, &hello(9)).unwrap(), (reply, 7));
    assert_eq!(text(accept_hello(&config, &[])), "expected HELLO");
    assert_eq!(
        text(accept_hello(&config, &[1, 0, 0, 2])),
        "expected HELLO message"
    );
    assert_eq!(
        text(accept_hello(&config, &[1, 0, 0, 6])),
        "unknown message type: 6"
    );
    assert_eq!(accept_keepalive(&[1, 0, 0, 2]).unwrap(), Message::Keepalive);
    assert!(matches!(accept_keepalive(&[]), Err(Error::Closed)));
    assert_eq!(text(accept_keepalive(&hello(5))), "expected KEEPALIVE");
    assert_eq!(text(accept_keepalive(&[1])), "message too short");
}

#[test]
fn messages_from_a_client() {
    let hello = Message::Hello {
        keepalive_interval: 1,
        is_server: false,
    };
    assert!(matches!(handle_message(addr(1), hello), PeerRequest::Ignore));
    assert!(matches!(
        handle_message(addr(1), Message::Keepalive),
        PeerRequest::Reply(Message::Keepalive)
    ));
    match handle_message(addr(1), Message::Subscribe { vni: Vni(3) }) {
        PeerRequest::Command(RoutingCommand::Subscribe { addr: from, vni }) => {
            assert_eq!((from, vni), (addr(1), Vni(3)))
        }
        _ => panic!("wrong request"),
    }
    match handle_message(addr(1), Message::Unsubscribe { vni: Vni(3) }) {
        PeerRequest::Command(RoutingCommand::Unsubscribe { addr: from, vni }) => {
            assert_eq!((from, vni), (addr(1), Vni(3)))
        }
        _ => panic!("wrong request"),
    }
    match handle_message(addr(1), update(Action::Remove, 3, 4, 5)) {
        PeerRequest::Command(RoutingCommand::Update {
            from_addr,
            action,
            vni,
            destination,
            next_hop,
        }) => {
            assert_eq!((from_addr, action), (addr(1), Action::Remove));
            assert_eq!((vni, destination, next_hop), (Vni(3), dest(4), hop(5)));
        }
        _ => panic!("wrong request"),
    }
}

#[test]
fn subscriber_knows_the_routes() {
    let mut actor = RoutingActor::new();
    let listener = addr(1);
    let change = |from: u16, action: Action, vni: u32, d: u8| RoutingCommand::Update {
        from_addr: addr(from),
        action,
        vni: Vni(vni),
        destination: dest(d),
        next_hop: hop(1),
    };
    for port in [1, 2, 3] {
        actor.handle(RoutingCommand::PeerConnected { addr: addr(port) });
    }
    actor.handle(RoutingCommand::Subscribe { addr: listener, vni: Vni(100) });

    let mut known: Vec<Destination> = Vec::new();
    for (command, left) in [
        (change(2, Action::Add, 100, 1), vec![1]),
        (change(3, Action::Add, 100, 2), vec![1, 2]),
        (change(2, Action::Add, 200, 3), vec![1, 2]),
        (change(1, Action::Add, 100, 4), vec![1, 2, 4]),
        (RoutingCommand::Unsubscribe { addr: listener, vni: Vni(200) }, vec![1, 2, 4]),
        (RoutingCommand::GetStats, vec![1, 2, 4]),
        (RoutingCommand::PeerDisconnected { addr: addr(2) }, vec![2, 4]),
        (change(1, Action::Remove, 100, 2), vec![4]),
        (change(3, Action::Remove, 100, 4), vec![]),
    ] {
        let mut heard: Vec<Message> = Vec::new();
        if let RoutingCommand::Update { from_addr, action, vni, destination, next_hop } = command {
            if from_addr == listener {
                heard.push(Message::Update { action, vni, destination, next_hop });
            }
        }
        if let RoutingReply::Distribute(distributions) = actor.handle(command) {
            for distribution in distributions {
                if distribution.recipients.contains(&listener) {
                    heard.push(distribution.message);
                }
            }
        }
        for message in heard {
            if let Message::Update { action, vni: Vni(100), destination, .. } = message {
                known.retain(|d| *d != destination);
                if action == Action::Add {
                    known.push(destination);
                }
            }
        }
        let expected: Vec<Destination> = left.into_iter().map(dest).collect();
        assert_eq!(known, expected);
    }
}
