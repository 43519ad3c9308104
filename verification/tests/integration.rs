//! Clients and servers that talk to each other in bytes, without a network.

use std::collections::VecDeque;

use rustbond::client::{ClientState, MetalBondClient, ServerId};
use rustbond::handler::RouteEvent;
use rustbond::ip::{IpAddr, IpNet, Ipv4Addr, Ipv6Addr, SocketAddr};
use rustbond::peer::{PeerCommand, PeerEvent, PeerNext, PeerState};
use rustbond::route::Route;
use rustbond::server::{
    announce_existing, PeerRequest, RoutingActor, RoutingCommand, RoutingReply, ServerConfig,
};
use rustbond::session::{Session, SessionEvent, SessionNext, SessionPhase};
use rustbond::stream::encode_all;
use rustbond::types::{ConnectionState, Destination, NextHop, NextHopType, Vni};

struct TestServer {
    actor: RoutingActor,
    sessions: Vec<Session>,
}

impl TestServer {
    fn new() -> Self {
        TestServer {
            actor: RoutingActor::new(),
            sessions: Vec::new(),
        }
    }

    fn route_count(&mut self) -> usize {
        match self.actor.handle(RoutingCommand::GetStats) {
            RoutingReply::Stats(routes, owners, peers) => {
                assert_eq!(routes, owners);
                assert_eq!(peers, self.peer_count());
                routes
            }
            _ => panic!("wrong reply"),
        }
    }

    fn peer_count(&self) -> usize {
        self.sessions
            .iter()
            .filter(|session| session.phase == SessionPhase::Established)
            .count()
    }
}

struct TestClient {
    core: MetalBondClient,
    peers: Vec<PeerState>,
    servers: Vec<usize>,
    added: Vec<(Vni, Route)>,
    removed: Vec<(Vni, Route)>,
}

/// Bytes on their way.
enum Delivery {
    ToServer(usize, usize, Vec<u8>),
    ToClient(usize, SocketAddr, Vec<u8>),
}

struct Net {
    servers: Vec<TestServer>,
    clients: Vec<TestClient>,
    deliveries: VecDeque<Delivery>,
}

/// The address of a client at its server.
fn addr(client: usize, server: usize) -> SocketAddr {
    SocketAddr::V6(
        Ipv6Addr::new(0, 0, 0, 0, 0, 0, 0, 1),
        (client * 100 + server) as u16,
        0,
        0,
    )
}

impl Net {
    fn new() -> Self {
        Net {
            servers: Vec::new(),
            clients: Vec::new(),
            deliveries: VecDeque::new(),
        }
    }

    fn start_server(&mut self) -> usize {
        self.servers.push(TestServer::new());
        self.servers.len() - 1
    }

    /// Adds a client and connects it to its servers.
    fn connect(&mut self, servers: &[usize]) -> usize {
        let addrs = vec!["[::1]:4711"; servers.len()];
        self.clients.push(TestClient {
            core: MetalBondClient::connect(&addrs),
            peers: servers.iter().map(|_| PeerState::new()).collect(),
            servers: servers.to_vec(),
            added: Vec::new(),
            removed: Vec::new(),
        });
        let client = self.clients.len() - 1;
        for i in 0..servers.len() {
            self.open(client, i);
        }
        client
    }

    /// Opens a connection.
    fn open(&mut self, client: usize, i: usize) {
        let server = self.clients[client].servers[i];
        let session = Session::new(ServerConfig::default(), addr(client, server));
        self.servers[server].sessions.push(session);
        self.client_event(client, i, PeerEvent::Opened);
        self.run();
        assert_eq!(
            self.clients[client].peers[i].state,
            ConnectionState::Established
        );
    }

    /// Delivers all bytes that are on their way.
    fn run(&mut self) {
        while let Some(delivery) = self.deliveries.pop_front() {
            match delivery {
                Delivery::ToServer(client, i, bytes) => {
                    let server = self.clients[client].servers[i];
                    let from = addr(client, server);
                    self.session_event(server, from, SessionEvent::Received(bytes));
                }
                Delivery::ToClient(server, to, bytes) => {
                    for client in 0..self.clients.len() {
                        let at = self.clients[client].servers.iter().position(|s| *s == server);
                        if let (true, Some(i)) = (addr(client, server) == to, at) {
                            self.client_event(client, i, PeerEvent::Received(bytes.clone()));
                        }
                    }
                }
            }
        }
    }

    fn client_event(&mut self, client: usize, i: usize, event: PeerEvent) {
        let one = &mut self.clients[client];
        let (reaction, told) = one.core.step(ServerId(i), &mut one.peers[i], event);
        for event in told {
            match event {
                RouteEvent::Added { vni, route } => one.added.push((vni, route)),
                RouteEvent::Removed { vni, route } => one.removed.push((vni, route)),
            }
        }
        if !reaction.send.is_empty() {
            let bytes = encode_all(&reaction.send);
            self.deliveries.push_back(Delivery::ToServer(client, i, bytes));
        }
        match reaction.next {
            PeerNext::ReportHello => self.client_event(client, i, PeerEvent::HelloSent),
            PeerNext::ReportCommand(command) => {
                self.client_event(client, i, PeerEvent::CommandSent(command))
            }
            _ => {}
        }
    }

    fn session_event(&mut self, server: usize, from: SocketAddr, event: SessionEvent) {
        let one = &mut self.servers[server];
        let session = one
            .sessions
            .iter_mut()
            .find(|session| session.addr == from && session.phase != SessionPhase::Over)
            .unwrap();
        let reaction = session.step(event);
        for request in reaction.requests {
            match request {
                PeerRequest::Ignore => {}
                PeerRequest::Reply(message) => {
                    let bytes = encode_all(&vec![message]);
                    self.deliveries.push_back(Delivery::ToClient(server, from, bytes));
                }
                PeerRequest::Command(command) => match (command, one.actor.handle(command)) {
                    (RoutingCommand::Subscribe { vni, .. }, RoutingReply::Routes(routes)) => {
                        let bytes = encode_all(&announce_existing(vni, &routes));
                        if !bytes.is_empty() {
                            self.deliveries.push_back(Delivery::ToClient(server, from, bytes));
                        }
                    }
                    (_, RoutingReply::Distribute(all)) => {
                        for sent in all {
                            for to in sent.recipients {
                                let bytes = encode_all(&vec![sent.message]);
                                self.deliveries.push_back(Delivery::ToClient(server, to, bytes));
                            }
                        }
                    }
                    _ => {}
                },
            }
        }
        if reaction.next == SessionNext::ReportGreeted {
            self.session_event(server, from, SessionEvent::Greeted);
        }
    }

    fn send(&mut self, client: usize, commands: Vec<(ServerId, PeerCommand)>) -> bool {
        let mut sent_any = false;
        for (server, command) in commands {
            if self.clients[client].peers[server.0].state == ConnectionState::Established {
                self.client_event(client, server.0, PeerEvent::Command(command));
                sent_any = true;
            }
        }
        self.run();
        MetalBondClient::sent_outcome(sent_any).is_ok()
    }

    fn subscribe(&mut self, client: usize, vni: Vni) {
        let commands = self.clients[client].core.subscribe(vni);
        assert!(self.send(client, commands));
    }

    fn unsubscribe(&mut self, client: usize, vni: Vni) {
        let commands = self.clients[client].core.unsubscribe(vni);
        assert!(self.send(client, commands));
    }

    fn announce(&mut self, client: usize, vni: Vni, destination: Destination, next_hop: NextHop) {
        let commands = self.clients[client]
            .core
            .announce(vni, destination, next_hop)
            .unwrap();
        assert!(self.send(client, commands));
    }

    fn withdraw(&mut self, client: usize, vni: Vni, destination: Destination, next_hop: NextHop) {
        let commands = self.clients[client]
            .core
            .withdraw(vni, destination, next_hop)
            .unwrap();
        assert!(self.send(client, commands));
    }

    /// Cuts the connection of a client.
    fn cut(&mut self, client: usize, i: usize) {
        let server = self.clients[client].servers[i];
        self.session_event(
            server,
            addr(client, server),
            SessionEvent::Received(Vec::new()),
        );
        self.client_event(client, i, PeerEvent::Received(Vec::new()));
        self.run();
    }

    /// Opens a connection again.
    fn reopen(&mut self, client: usize, i: usize) {
        self.client_event(client, i, PeerEvent::Elapsed);
        self.open(client, i);
    }
}

/// Helper to create destination.
fn dest(prefix: &str) -> Destination {
    match prefix.parse::<ipnet::IpNet>().unwrap() {
        ipnet::IpNet::V4(net) => {
            let addr = Ipv4Addr::from_octets(&net.addr().octets());
            Destination::new(IpNet::new(IpAddr::V4(addr), net.prefix_len()).unwrap())
        }
        ipnet::IpNet::V6(net) => {
            let addr = Ipv6Addr::from_octets(&net.addr().octets());
            Destination::new(IpNet::new(IpAddr::V6(addr), net.prefix_len()).unwrap())
        }
    }
}

fn address(text: &str) -> Ipv6Addr {
    let net: ipnet::Ipv6Net = format!("{}/128", text).parse().unwrap();
    Ipv6Addr::from_octets(&net.addr().octets())
}

/// Helper to create next hop.
fn hop(addr: &str) -> NextHop {
    NextHop::standard(address(addr))
}

#[test]
fn test_server_starts_and_stops() {
    let mut net = Net::new();
    let server = net.start_server();

    assert_eq!(net.servers[server].route_count(), 0);
    assert_eq!(net.servers[server].peer_count(), 0);
}

#[test]
fn test_client_connects_to_server() {
    let mut net = Net::new();
    let server = net.start_server();
    let client = net.connect(&[server]);

    assert!(matches!(
        net.clients[client].core.any_established_outcome(),
        Some(Ok(()))
    ));
    assert_eq!(net.servers[server].peer_count(), 1);
}

#[test]
fn test_client_subscribe_and_announce() {
    let mut net = Net::new();
    let server = net.start_server();
    let client = net.connect(&[server]);
    net.subscribe(client, Vni(100));
    net.announce(client, Vni(100), dest("10.0.1.0/24"), hop("2001:db8::1"));

    assert_eq!(net.servers[server].route_count(), 1);
}

#[test]
fn test_route_distribution_between_clients() {
    let mut net = Net::new();
    let server = net.start_server();
    let client1 = net.connect(&[server]);
    net.subscribe(client1, Vni(100));
    let client2 = net.connect(&[server]);
    net.subscribe(client2, Vni(100));

    net.announce(client2, Vni(100), dest("10.0.2.0/24"), hop("2001:db8::99"));

    // Client 1 should receive the route
    let (vni, route) = net.clients[client1].added[0];
    assert_eq!(vni.0, 100);
    assert_eq!(route.destination.prefix.text(), "10.0.2.0/24");

    // Client 2 should NOT receive its own route (no echo)
    assert!(net.clients[client2].added.is_empty());
}

#[test]
fn test_route_withdrawal() {
    let mut net = Net::new();
    let server = net.start_server();
    let client1 = net.connect(&[server]);
    net.subscribe(client1, Vni(100));
    let client2 = net.connect(&[server]);
    net.subscribe(client2, Vni(100));

    let destination = dest("10.0.3.0/24");
    let next_hop = hop("2001:db8::33");
    net.announce(client2, Vni(100), destination, next_hop);
    assert_eq!(net.clients[client1].added.len(), 1);
    net.withdraw(client2, Vni(100), destination, next_hop);

    let (vni, route) = net.clients[client1].removed[0];
    assert_eq!(vni.0, 100);
    assert_eq!(route.destination.prefix.text(), "10.0.3.0/24");
}

#[test]
fn test_existing_routes_sent_on_subscribe() {
    let mut net = Net::new();
    let server = net.start_server();
    let client1 = net.connect(&[server]);
    net.subscribe(client1, Vni(100));
    net.announce(client1, Vni(100), dest("10.0.4.0/24"), hop("2001:db8::44"));

    let client2 = net.connect(&[server]);
    net.subscribe(client2, Vni(100));

    let (vni, route) = net.clients[client2].added[0];
    assert_eq!(vni.0, 100);
    assert_eq!(route.destination.prefix.text(), "10.0.4.0/24");
}

#[test]
fn test_explicit_route_withdrawal() {
    let mut net = Net::new();
    let server = net.start_server();
    let client1 = net.connect(&[server]);
    net.subscribe(client1, Vni(100));
    let client2 = net.connect(&[server]);
    net.subscribe(client2, Vni(100));

    let destination = dest("10.0.5.0/24");
    let next_hop = hop("2001:db8::55");
    net.announce(client2, Vni(100), destination, next_hop);
    assert_eq!(net.clients[client1].added.len(), 1);
    net.withdraw(client2, Vni(100), destination, next_hop);

    let (vni, route) = net.clients[client1].removed[0];
    assert_eq!(vni.0, 100);
    assert_eq!(route.destination.prefix.text(), "10.0.5.0/24");
    assert_eq!(net.servers[server].route_count(), 0);
}

#[test]
fn test_multiple_vnis() {
    let mut net = Net::new();
    let server = net.start_server();
    let client1 = net.connect(&[server]);
    net.subscribe(client1, Vni(100));
    let client2 = net.connect(&[server]);
    net.subscribe(client2, Vni(200));
    let client3 = net.connect(&[server]);
    net.subscribe(client3, Vni(100));

    net.announce(client3, Vni(100), dest("10.0.6.0/24"), hop("2001:db8::66"));

    // Client 1 should receive the route (subscribed to VNI 100)
    assert_eq!(net.clients[client1].added.len(), 1);
    // Client 2 should NOT receive the route (subscribed to VNI 200)
    assert!(net.clients[client2].added.is_empty());
}

#[test]
fn test_nat_route_type() {
    let mut net = Net::new();
    let server = net.start_server();
    let client1 = net.connect(&[server]);
    net.subscribe(client1, Vni(100));
    let client2 = net.connect(&[server]);
    net.subscribe(client2, Vni(100));

    let nat_hop = NextHop::nat_ports(address("2001:db8::77"), 30000, 40000);
    net.announce(client2, Vni(100), dest("10.0.7.0/24"), nat_hop);

    let (_, route) = net.clients[client1].added[0];
    assert_eq!(route.next_hop.hop_type, NextHopType::Nat);
    assert_eq!(route.next_hop.nat_port_range_from, 30000);
    assert_eq!(route.next_hop.nat_port_range_to, 40000);
}

#[test]
fn test_load_balancer_route_type() {
    let mut net = Net::new();
    let server = net.start_server();
    let client1 = net.connect(&[server]);
    net.subscribe(client1, Vni(100));
    let client2 = net.connect(&[server]);
    net.subscribe(client2, Vni(100));

    let lb_hop = NextHop::load_balancer(address("2001:db8::88"));
    net.announce(client2, Vni(100), dest("10.0.8.0/24"), lb_hop);

    let (_, route) = net.clients[client1].added[0];
    assert_eq!(route.next_hop.hop_type, NextHopType::LoadBalancerTarget);
}

#[test]
fn test_ipv6_destination() {
    let mut net = Net::new();
    let server = net.start_server();
    let client1 = net.connect(&[server]);
    net.subscribe(client1, Vni(100));
    let client2 = net.connect(&[server]);
    net.subscribe(client2, Vni(100));

    net.announce(client2, Vni(100), dest("2001:db8:1::/48"), hop("2001:db8::99"));

    let (_, route) = net.clients[client1].added[0];
    assert_eq!(route.destination.prefix.text(), "2001:db8:1::/48");
}

#[test]
fn test_multi_server_connects_all() {
    let mut net = Net::new();
    let server1 = net.start_server();
    let server2 = net.start_server();
    let client = net.connect(&[server1, server2]);

    assert!(matches!(
        net.clients[client].core.all_established_outcome(),
        Some(Ok(()))
    ));
    assert_eq!(net.clients[client].core.state(), ClientState::FullyConnected);
    assert_eq!(net.servers[server1].peer_count(), 1);
    assert_eq!(net.servers[server2].peer_count(), 1);
}

#[test]
fn test_multi_server_ecmp_deduplication() {
    let mut net = Net::new();
    let server1 = net.start_server();
    let server2 = net.start_server();
    let client = net.connect(&[server1, server2]);
    net.subscribe(client, Vni(100));
    let announcer1 = net.connect(&[server1]);
    net.subscribe(announcer1, Vni(100));
    let announcer2 = net.connect(&[server2]);
    net.subscribe(announcer2, Vni(100));

    let destination = dest("10.1.0.0/24");
    let next_hop = hop("2001:db8::100");
    net.announce(announcer1, Vni(100), destination, next_hop);
    net.announce(announcer2, Vni(100), destination, next_hop);

    // Same route from two servers should only be told once
    assert_eq!(net.clients[client].added.len(), 1);
}

#[test]
fn test_multi_server_different_hops_are_separate() {
    let mut net = Net::new();
    let server1 = net.start_server();
    let server2 = net.start_server();
    let client = net.connect(&[server1, server2]);
    net.subscribe(client, Vni(100));
    let announcer1 = net.connect(&[server1]);
    net.subscribe(announcer1, Vni(100));
    let announcer2 = net.connect(&[server2]);
    net.subscribe(announcer2, Vni(100));

    let destination = dest("10.2.0.0/24");
    net.announce(announcer1, Vni(100), destination, hop("2001:db8::201"));
    net.announce(announcer2, Vni(100), destination, hop("2001:db8::202"));

    // Different next-hops are separate routes
    assert_eq!(net.clients[client].added.len(), 2);
}

#[test]
fn test_multi_server_partial_withdraw() {
    let mut net = Net::new();
    let server1 = net.start_server();
    let server2 = net.start_server();
    let client = net.connect(&[server1, server2]);
    net.subscribe(client, Vni(100));
    let announcer1 = net.connect(&[server1]);
    net.subscribe(announcer1, Vni(100));
    let announcer2 = net.connect(&[server2]);
    net.subscribe(announcer2, Vni(100));

    let destination = dest("10.3.0.0/24");
    let next_hop = hop("2001:db8::300");
    net.announce(announcer1, Vni(100), destination, next_hop);
    net.announce(announcer2, Vni(100), destination, next_hop);
    assert_eq!(net.clients[client].added.len(), 1);
    assert_eq!(net.clients[client].removed.len(), 0);

    // Announcer 1 withdraws - but announcer 2 still has the route
    net.withdraw(announcer1, Vni(100), destination, next_hop);
    assert_eq!(net.clients[client].removed.len(), 0);
}

#[test]
fn test_multi_server_full_withdraw() {
    let mut net = Net::new();
    let server1 = net.start_server();
    let server2 = net.start_server();
    let client = net.connect(&[server1, server2]);
    net.subscribe(client, Vni(100));
    let announcer1 = net.connect(&[server1]);
    net.subscribe(announcer1, Vni(100));
    let announcer2 = net.connect(&[server2]);
    net.subscribe(announcer2, Vni(100));

    let destination = dest("10.4.0.0/24");
    let next_hop = hop("2001:db8::400");
    net.announce(announcer1, Vni(100), destination, next_hop);
    net.announce(announcer2, Vni(100), destination, next_hop);
    net.withdraw(announcer1, Vni(100), destination, next_hop);
    net.withdraw(announcer2, Vni(100), destination, next_hop);

    assert_eq!(net.clients[client].added.len(), 1);
    assert_eq!(net.clients[client].removed.len(), 1);
}

#[test]
fn test_multi_server_subscribe_announce_to_all() {
    let mut net = Net::new();
    let server1 = net.start_server();
    let server2 = net.start_server();
    let client = net.connect(&[server1, server2]);
    net.subscribe(client, Vni(100));
    net.announce(client, Vni(100), dest("10.5.0.0/24"), hop("2001:db8::500"));

    assert_eq!(net.servers[server1].route_count(), 1);
    assert_eq!(net.servers[server2].route_count(), 1);
}

#[test]
fn test_routes_reannounced_on_reconnect() {
    let mut net = Net::new();
    let server = net.start_server();
    let client = net.connect(&[server]);
    net.subscribe(client, Vni(100));
    net.announce(client, Vni(100), dest("10.99.0.0/24"), hop("2001:db8::99"));
    assert_eq!(net.servers[server].route_count(), 1);

    // The server is replaced by a new one
    net.cut(client, 0);
    net.servers[server] = TestServer::new();
    assert_eq!(net.servers[server].route_count(), 0);
    net.reopen(client, 0);
    assert!(net.servers[server].peer_count() > 0);

    // The route was re-announced, and the subscription re-sent
    assert_eq!(net.servers[server].route_count(), 1);
    let other = net.connect(&[server]);
    net.announce(other, Vni(100), dest("10.98.0.0/24"), hop("2001:db8::98"));
    assert_eq!(net.clients[client].added.len(), 1);
}

#[test]
fn disconnect_withdraws_routes() {
    let mut net = Net::new();
    let server = net.start_server();
    let client = net.connect(&[server]);
    net.subscribe(client, Vni(100));
    let announcer = net.connect(&[server]);
    net.announce(announcer, Vni(100), dest("10.6.0.0/24"), hop("2001:db8::1"));
    net.announce(announcer, Vni(100), dest("10.7.0.0/24"), hop("2001:db8::1"));
    assert_eq!(net.clients[client].core.route_count(), 2);

    net.cut(announcer, 0);
    assert_eq!(net.servers[server].route_count(), 0);
    assert_eq!(net.clients[client].removed.len(), 2);
    assert!(net.clients[client].core.is_route_table_empty());
}

#[test]
fn unsubscribing_forgets_routes() {
    let mut net = Net::new();
    let server = net.start_server();
    let client = net.connect(&[server]);
    net.subscribe(client, Vni(100));
    net.subscribe(client, Vni(200));
    let announcer = net.connect(&[server]);
    net.announce(announcer, Vni(100), dest("10.6.0.0/24"), hop("2001:db8::1"));
    net.announce(announcer, Vni(200), dest("10.7.0.0/24"), hop("2001:db8::1"));
    net.unsubscribe(client, Vni(100));
    assert_eq!(
        net.clients[client].removed,
        vec![(
            Vni(100),
            Route::new(dest("10.6.0.0/24"), hop("2001:db8::1"))
        )]
    );
    net.announce(announcer, Vni(100), dest("10.8.0.0/24"), hop("2001:db8::1"));
    assert_eq!(net.clients[client].core.route_count(), 1);
}

#[test]
fn losing_a_server_keeps_what_the_other_announces() {
    let mut net = Net::new();
    let server1 = net.start_server();
    let server2 = net.start_server();
    let client = net.connect(&[server1, server2]);
    net.subscribe(client, Vni(100));
    let announcer = net.connect(&[server1, server2]);
    net.announce(announcer, Vni(100), dest("10.6.0.0/24"), hop("2001:db8::1"));
    net.cut(client, 0);
    assert!(net.clients[client].removed.is_empty());
    assert_eq!(net.clients[client].core.route_count(), 1);
    net.cut(client, 1);
    assert_eq!(net.clients[client].removed.len(), 1);
    assert_eq!(net.clients[client].core.state(), ClientState::Disconnected);
}

#[test]
fn subscription_while_disconnected() {
    let mut net = Net::new();
    let server = net.start_server();
    let client = net.connect(&[server]);
    net.cut(client, 0);
    // Nothing can be sent, but both are kept
    let commands = net.clients[client].core.subscribe(Vni(100));
    assert!(commands.is_empty());
    assert!(!net.send(client, commands));
    let commands = net.clients[client]
        .core
        .announce(Vni(100), dest("10.6.0.0/24"), hop("2001:db8::1"))
        .unwrap();
    assert!(!net.send(client, commands));
    net.reopen(client, 0);
    assert_eq!(net.servers[server].route_count(), 1);
    let other = net.connect(&[server]);
    net.announce(other, Vni(100), dest("10.7.0.0/24"), hop("2001:db8::2"));
    assert_eq!(net.clients[client].added.len(), 1);
}

#[test]
fn shutting_down_a_client() {
    let mut net = Net::new();
    let server1 = net.start_server();
    let server2 = net.start_server();
    let client = net.connect(&[server1, server2]);
    let commands = net.clients[client].core.shutdown();
    assert!(net.send(client, commands));
    assert_eq!(net.clients[client].core.state(), ClientState::Closed);
    assert_eq!(net.clients[client].core.connected_count(), 0);
}
