//! Routing state of a MetalBond server.
//!
//! The server accepts connections from clients, manages subscriptions, and distributes routes
//! between subscribers. One [`RoutingActor`] owns all routing state and handles one command
//! after the other:
//!
//! - **VNI-based routing**: Routes are organized by Virtual Network Identifier
//! - **Automatic cleanup**: When a client disconnects, all its routes are withdrawn
//! - **Route distribution**: Updates are forwarded to all subscribers of a VNI
//! - **Keepalive negotiation**: Server and client agree on the minimum keepalive interval
//!
//! A connection starts like this:
//!
//! 1. Client connects and sends `HELLO` with its keepalive interval
//! 2. Server responds with `HELLO` containing its interval
//! 3. Client sends `KEEPALIVE`, server responds with `KEEPALIVE`
//! 4. Connection is established; client can now subscribe and announce routes

use vstd::prelude::*;

use crate::error::Error;
use crate::handshake;
use crate::ip::SocketAddr;
use crate::members::{Members, Same, Table};
use crate::route::{self, Route, RouteTable};
use crate::types::{Action, Destination, NextHop, Vni};
use crate::wire::Message;

verus! {

/// Maximum pending messages per peer (slow consumer protection).
/// Large enough to handle bursts, but bounded to prevent running out of memory.
pub const MAX_PENDING_MESSAGES: usize = 50_000;

/// Maximum number of messages that are written to a peer at once.
pub const MAX_BATCH_MESSAGES: usize = 1000;

/// Server configuration.
#[derive(Debug, Clone, Copy)]
pub struct ServerConfig {
    /// Keepalive interval in seconds.
    pub keepalive_interval: u32,
}

impl Default for ServerConfig {
    fn default() -> (r: Self)
        ensures
            r.keepalive_interval == 5,
    {
        Self { keepalive_interval: handshake::DEFAULT_KEEPALIVE_INTERVAL }
    }
}

// ----------------------------------------------------------------------------
// Routing state
// ----------------------------------------------------------------------------

/// Commands sent to the routing actor.
#[derive(Debug, Clone, Copy)]
pub enum RoutingCommand {
    /// Register a new peer connection.
    PeerConnected { addr: SocketAddr },
    /// Peer disconnected - clean up routes and subscriptions.
    PeerDisconnected { addr: SocketAddr },
    /// Subscribe to a VNI (returns existing routes).
    Subscribe { addr: SocketAddr, vni: Vni },
    /// Unsubscribe from a VNI.
    Unsubscribe { addr: SocketAddr, vni: Vni },
    /// Route update (add or remove).
    Update {
        from_addr: SocketAddr,
        action: Action,
        vni: Vni,
        destination: Destination,
        next_hop: NextHop,
    },
    /// Get statistics.
    GetStats,
}

/// A message and the peers that it goes to.
#[derive(Debug)]
pub struct Distribution {
    pub message: Message,
    pub recipients: Vec<SocketAddr>,
}

/// What a command asks for.
#[derive(Debug)]
pub enum RoutingReply {
    /// Nothing more.
    Done,
    /// The routes that a new subscriber has to be told.
    Routes(Vec<(Destination, NextHop)>),
    /// Messages to hand out.
    Distribute(Vec<Distribution>),
    /// The numbers of routes, of routes with an owner and of peers.
    Stats(usize, usize, usize),
}

impl Same for (Vni, SocketAddr) {
    fn same(&self, other: &Self) -> (r: bool) {
        self.0 == other.0 && self.1 == other.1
    }
}

/// Actor that owns all routing state.
#[derive(Debug)]
pub struct RoutingActor {
    /// Route table: the next hops of each destination in each VNI
    routes: RouteTable,
    /// Route ownership: which peer announced each route
    route_owners: Table<(Vni, Destination, NextHop), SocketAddr>,
    /// Subscriptions: which peer subscribed to which VNI
    subscriptions: Members<(Vni, SocketAddr)>,
    /// Peers for distribution
    peers: Members<SocketAddr>,
}

/// The routing state.
#[verifier::ext_equal]
pub struct Routing {
    pub routes: Set<(Vni, Destination, NextHop)>,
    pub owners: Map<(Vni, Destination, NextHop), SocketAddr>,
    pub subscriptions: Set<(Vni, SocketAddr)>,
    pub peers: Set<SocketAddr>,
}

impl View for RoutingActor {
    type V = Routing;

    closed spec fn view(&self) -> Routing {
        Routing {
            routes: self.routes@,
            owners: self.route_owners@,
            subscriptions: self.subscriptions@,
            peers: self.peers@,
        }
    }
}

impl Routing {
    pub open spec fn spec_new() -> Routing {
        Routing {
            routes: Set::empty(),
            owners: Map::empty(),
            subscriptions: Set::empty(),
            peers: Set::empty(),
        }
    }

    /// Every route has exactly one owner.
    pub open spec fn wf(self) -> bool {
        self.routes == self.owners.dom()
    }

    /// The peers that a message about a VNI goes to: those that are connected and subscribed.
    pub open spec fn subscribers(self, vni: Vni) -> Set<SocketAddr> {
        self.peers.filter(|addr: SocketAddr| self.subscriptions.contains((vni, addr)))
    }

    /// The subscribers but for the one that a message came from.
    pub open spec fn recipients(self, vni: Vni, from_addr: SocketAddr) -> Set<SocketAddr> {
        self.subscribers(vni).remove(from_addr)
    }

    pub open spec fn connect(self, addr: SocketAddr) -> Routing {
        Routing { peers: self.peers.insert(addr), ..self }
    }

    pub open spec fn subscribe(self, addr: SocketAddr, vni: Vni) -> Routing {
        Routing { subscriptions: self.subscriptions.insert((vni, addr)), ..self }
    }

    pub open spec fn unsubscribe(self, addr: SocketAddr, vni: Vni) -> Routing {
        Routing { subscriptions: self.subscriptions.remove((vni, addr)), ..self }
    }

    pub open spec fn update(
        self,
        from_addr: SocketAddr,
        action: Action,
        key: (Vni, Destination, NextHop),
    ) -> Routing {
        match action {
            Action::Add => Routing {
                routes: self.routes.insert(key),
                owners: self.owners.insert(key, from_addr),
                ..self
            },
            Action::Remove => Routing {
                routes: self.routes.remove(key),
                owners: self.owners.remove(key),
                ..self
            },
        }
    }

    /// The peer announced the route, and no other peer after it.
    pub open spec fn owns(self, addr: SocketAddr, key: (Vni, Destination, NextHop)) -> bool {
        self.owners.contains_key(key) && self.owners[key] == addr
    }

    /// The state without a peer as one that messages go to.
    pub open spec fn without_peer(self, addr: SocketAddr) -> Routing {
        Routing {
            subscriptions: self.subscriptions.filter(|s: (Vni, SocketAddr)| s.1 != addr),
            peers: self.peers.remove(addr),
            ..self
        }
    }

    /// The state without a peer and without the routes that it owns.
    pub open spec fn disconnect(self, addr: SocketAddr) -> Routing {
        Routing {
            routes: self.routes.filter(
                |key: (Vni, Destination, NextHop)| !self.owns(addr, key),
            ),
            owners: self.owners.remove_keys(
                Set::new(|key: (Vni, Destination, NextHop)| self.owns(addr, key)),
            ),
            ..self.without_peer(addr)
        }
    }

    /// The state without peers that messages pile up for.
    pub open spec fn without_peers(self, addrs: Seq<SocketAddr>) -> Routing {
        Routing {
            subscriptions: self.subscriptions.filter(
                |s: (Vni, SocketAddr)| !addrs.contains(s.1),
            ),
            peers: self.peers.filter(|addr: SocketAddr| !addrs.contains(addr)),
            ..self
        }
    }
}

/// The update that withdraws a route.
pub open spec fn withdrawal(key: (Vni, Destination, NextHop)) -> Message {
    Message::Update { action: Action::Remove, vni: key.0, destination: key.1, next_hop: key.2 }
}

impl Distribution {
    /// The message goes once to each of the given peers.
    pub open spec fn goes_to(self, peers: Set<SocketAddr>) -> bool {
        self.recipients@.no_duplicates() && self.recipients@.to_set() == peers
    }

    /// The message withdraws a route that a peer owned, and goes to all subscribers that are
    /// left.
    pub open spec fn withdraws(
        self,
        key: (Vni, Destination, NextHop),
        before: Routing,
        addr: SocketAddr,
    ) -> bool {
        &&& before.owns(addr, key)
        &&& self.message == withdrawal(key)
        &&& self.goes_to(before.without_peer(addr).subscribers(key.0))
    }

    /// The message withdraws one of the routes that a peer owned.
    pub open spec fn withdraws_one(self, before: Routing, addr: SocketAddr) -> bool {
        exists|key: (Vni, Destination, NextHop)| #[trigger] self.withdraws(key, before, addr)
    }
}

/// The distributions hand out the withdrawals of the routes that a peer owned, each once and to
/// all subscribers that are left.
pub open spec fn withdraws_all(
    distributions: Seq<Distribution>,
    before: Routing,
    addr: SocketAddr,
) -> bool {
    &&& forall|i: int, j: int|
        0 <= i < j < distributions.len() ==> (#[trigger] distributions[i]).message != (
        #[trigger] distributions[j]).message
    &&& forall|i: int|
        0 <= i < distributions.len() ==> (#[trigger] distributions[i]).withdraws_one(before, addr)
    &&& forall|key: (Vni, Destination, NextHop)| #[trigger]
        before.owns(addr, key) ==> exists|i: int|
            0 <= i < distributions.len() && (#[trigger] distributions[i]).withdraws(
                key,
                before,
                addr,
            )
}

impl RoutingActor {
    /// The state is consistent: every route has exactly one owner.
    pub closed spec fn wf(&self) -> bool {
        &&& self.routes.wf()
        &&& self.route_owners.wf()
        &&& self.subscriptions.wf()
        &&& self.peers.wf()
        &&& self@.wf()
    }

    /// Every route has exactly one owner, and what is stored is finite.
    pub proof fn lemma_consistent(&self)
        requires
            self.wf(),
        ensures
            self@.wf(),
            self@.routes.finite(),
            self@.owners.dom().finite(),
            self@.subscriptions.finite(),
            self@.peers.finite(),
    {
        self.routes.lemma_finite();
        self.subscriptions.lemma_finite();
        self.peers.lemma_finite();
    }

    /// Creates the state of a server without peers.
    pub fn new() -> (r: Self)
        ensures
            r.wf(),
            r@ == Routing::spec_new(),
    {
        let r = Self {
            routes: RouteTable::new(),
            route_owners: Table::new(),
            subscriptions: Members::new(),
            peers: Members::new(),
        };
        assert(r@.routes =~= r@.owners.dom());
        r
    }

    /// Registers a peer.
    pub fn handle_peer_connected(&mut self, addr: SocketAddr)
        requires
            old(self).wf(),
        ensures
            final(self).wf(),
            final(self)@ == old(self)@.connect(addr),
    {
        self.peers.insert(addr);
    }

    /// Subscribes a peer to a VNI and returns the routes that exist there.
    pub fn handle_subscribe(&mut self, addr: SocketAddr, vni: Vni) -> (r: Vec<
        (Destination, NextHop),
    >)
        requires
            old(self).wf(),
        ensures
            final(self).wf(),
            final(self)@ == old(self)@.subscribe(addr, vni),
            r@.no_duplicates(),
            forall|d: Destination, h: NextHop| #[trigger]
                r@.contains((d, h)) <==> old(self)@.routes.contains((vni, d, h)),
    {
        self.subscriptions.insert((vni, addr));
        let routes = self.routes.get_routes_by_vni(vni);
        let mut r: Vec<(Destination, NextHop)> = Vec::new();
        for i in 0..routes.len()
            invariant
                r@.len() == i,
                forall|j: int|
                    0 <= j < i ==> #[trigger] r@[j] == (routes@[j].destination, routes@[j].next_hop),
        {
            r.push((routes[i].destination, routes[i].next_hop));
        }
        proof {
            assert forall|i: int, j: int|
                0 <= i < r@.len() && 0 <= j < r@.len() && i != j implies r@[i] != r@[j] by {
                assert(routes@[i] != routes@[j]);
            }
            assert forall|d: Destination, h: NextHop| #[trigger]
                r@.contains((d, h)) <==> old(self)@.routes.contains((vni, d, h)) by {
                let route = Route { destination: d, next_hop: h };
                assert(routes@.to_set().contains(route) == route::routes_of(
                    self.routes@,
                    vni,
                ).contains(route));
                if r@.contains((d, h)) {
                    let j = r@.index_of((d, h));
                    assert(routes@[j] == route);
                }
                if routes@.contains(route) {
                    let j = routes@.index_of(route);
                    assert(r@[j] == (d, h));
                }
            }
        }
        r
    }

    /// Unsubscribes a peer from a VNI.
    pub fn handle_unsubscribe(&mut self, addr: SocketAddr, vni: Vni)
        requires
            old(self).wf(),
        ensures
            final(self).wf(),
            final(self)@ == old(self)@.unsubscribe(addr, vni),
    {
        self.subscriptions.remove((vni, addr));
    }

    /// The peers that a message about a VNI goes to.
    fn subscribers(&self, vni: Vni) -> (r: Vec<SocketAddr>)
        requires
            self.wf(),
        ensures
            r@.no_duplicates(),
            r@.to_set() == self@.subscribers(vni),
    {
        let peers = self.peers.list();
        let mut r: Vec<SocketAddr> = Vec::new();
        for i in 0..peers.len()
            invariant
                self.wf(),
                peers@.no_duplicates(),
                r@.no_duplicates(),
                forall|addr: SocketAddr| #[trigger]
                    r@.contains(addr) <==> peers@.take(i as int).contains(addr)
                        && self@.subscriptions.contains((vni, addr)),
        {
            let addr = peers[i];
            let ghost before = r@;
            proof {
                crate::members::lemma_take_step(peers@, i as int);
                crate::members::lemma_fresh(peers@, i as int);
            }
            if self.subscriptions.contains((vni, addr)) {
                assert(!before.contains(addr));
                r.push(addr);
                assert forall|x: SocketAddr| #[trigger]
                    r@.contains(x) <==> before.contains(x) || x == addr by {
                    crate::members::lemma_push_contains(before, addr, x);
                }
            }
        }
        proof {
            assert(peers@.take(peers@.len() as int) =~= peers@);
            assert forall|addr: SocketAddr|
                r@.to_set().contains(addr) == self@.subscribers(vni).contains(addr) by {
                assert(peers@.to_set().contains(addr) == self.peers@.contains(addr));
            }
            assert(r@.to_set() =~= self@.subscribers(vni));
        }
        r
    }

    /// Takes in a route update, and returns the message that tells the subscribers of the VNI
    /// about it, but for the sender.
    pub fn handle_update(
        &mut self,
        from_addr: SocketAddr,
        action: Action,
        vni: Vni,
        destination: Destination,
        next_hop: NextHop,
    ) -> (r: Distribution)
        requires
            old(self).wf(),
        ensures
            final(self).wf(),
            final(self)@ == old(self)@.update(from_addr, action, (vni, destination, next_hop)),
            r.message == (Message::Update { action, vni, destination, next_hop }),
            r.goes_to(old(self)@.recipients(vni, from_addr)),
    {
        match action {
            Action::Add => {
                self.routes.add_next_hop(vni, destination, next_hop);
                self.route_owners.insert((vni, destination, next_hop), from_addr);
            },
            Action::Remove => {
                self.routes.remove_next_hop(vni, &destination, &next_hop);
                self.route_owners.remove((vni, destination, next_hop));
            },
        }
        assert(self@.routes =~= self@.owners.dom());
        let subscribers = self.subscribers(vni);
        let mut recipients: Vec<SocketAddr> = Vec::new();
        for i in 0..subscribers.len()
            invariant
                subscribers@.no_duplicates(),
                recipients@.no_duplicates(),
                forall|addr: SocketAddr| #[trigger]
                    recipients@.contains(addr) <==> subscribers@.take(i as int).contains(addr)
                        && addr != from_addr,
        {
            let addr = subscribers[i];
            let ghost before = recipients@;
            proof {
                crate::members::lemma_take_step(subscribers@, i as int);
                crate::members::lemma_fresh(subscribers@, i as int);
            }
            if addr != from_addr {
                assert(!before.contains(addr));
                recipients.push(addr);
                assert forall|x: SocketAddr| #[trigger]
                    recipients@.contains(x) <==> before.contains(x) || x == addr by {
                    crate::members::lemma_push_contains(before, addr, x);
                }
            }
        }
        proof {
            assert(subscribers@.take(subscribers@.len() as int) =~= subscribers@);
            assert(old(self)@.subscribers(vni) =~= self@.subscribers(vni));
            assert forall|addr: SocketAddr|
                recipients@.to_set().contains(addr) == old(self)@.recipients(
                    vni,
                    from_addr,
                ).contains(addr) by {
                assert(subscribers@.to_set().contains(addr) == self@.subscribers(vni).contains(
                    addr,
                ));
            }
            assert(recipients@.to_set() =~= old(self)@.recipients(vni, from_addr));
        }
        Distribution {
            message: Message::Update { action, vni, destination, next_hop },
            recipients,
        }
    }

    /// Removes a peer from those that messages go to.
    fn remove_peer(&mut self, addr: SocketAddr)
        requires
            old(self).wf(),
        ensures
            final(self).wf(),
            final(self)@ == old(self)@.without_peer(addr),
    {
        self.peers.remove(addr);
        let all = self.subscriptions.list();
        for i in 0..all.len()
            invariant
                self.wf(),
                self@.routes == old(self)@.routes,
                self@.owners == old(self)@.owners,
                self@.peers == old(self)@.peers.remove(addr),
                all@.to_set() == old(self)@.subscriptions,
                forall|s: (Vni, SocketAddr)| #[trigger]
                    self@.subscriptions.contains(s) <==> old(self)@.subscriptions.contains(s) && !(
                    s.1 == addr && all@.take(i as int).contains(s)),
        {
            proof {
                crate::members::lemma_take_step(all@, i as int);
            }
            let s = all[i];
            let ghost before = self@.subscriptions;
            if s.1 == addr {
                self.subscriptions.remove(s);
            }
            assert forall|x: (Vni, SocketAddr)| #[trigger]
                self@.subscriptions.contains(x) <==> old(self)@.subscriptions.contains(x) && !(x.1
                    == addr && all@.take(i + 1).contains(x)) by {
                assert(before.contains(x) <==> old(self)@.subscriptions.contains(x) && !(x.1 == addr
                    && all@.take(i as int).contains(x)));
                assert(all@.take(i + 1).contains(x) <==> all@.take(i as int).contains(x) || x == s);
            }
        }
        proof {
            assert(all@.take(all@.len() as int) =~= all@);
            assert forall|s: (Vni, SocketAddr)|
                self@.subscriptions.contains(s) == old(self)@.without_peer(
                    addr,
                ).subscriptions.contains(s) by {
                assert(all@.to_set().contains(s) == old(self)@.subscriptions.contains(s));
            }
            assert(self@ =~= old(self)@.without_peer(addr));
        }
    }

    /// Removes peers that messages pile up for: no more messages go to them until they connect
    /// again. The routes that they own stay.
    pub fn remove_slow_consumers(&mut self, slow_consumers: &Vec<SocketAddr>)
        requires
            old(self).wf(),
        ensures
            final(self).wf(),
            final(self)@ == old(self)@.without_peers(slow_consumers@),
    {
        assert(self@ =~= old(self)@.without_peers(slow_consumers@.take(0)));
        for i in 0..slow_consumers.len()
            invariant
                self.wf(),
                self@ == old(self)@.without_peers(slow_consumers@.take(i as int)),
        {
            proof {
                crate::members::lemma_take_step(slow_consumers@, i as int);
            }
            self.remove_peer(slow_consumers[i]);
            assert(self@ =~= old(self)@.without_peers(slow_consumers@.take(i + 1)));
        }
        assert(slow_consumers@.take(slow_consumers@.len() as int) =~= slow_consumers@);
    }

    /// Cleans up after a peer: its subscriptions and its routes go, and the subscribers that are
    /// left are told.
    pub fn handle_peer_disconnected(&mut self, addr: SocketAddr) -> (r: Vec<Distribution>)
        requires
            old(self).wf(),
        ensures
            final(self).wf(),
            final(self)@ == old(self)@.disconnect(addr),
            withdraws_all(r@, old(self)@, addr),
    {
        self.remove_peer(addr);
        let ghost without = self@;
        let owners = self.route_owners.list();
        let mut distributions: Vec<Distribution> = Vec::new();
        let ghost mut gone: Seq<(Vni, Destination, NextHop)> = Seq::empty();
        for i in 0..owners.len()
            invariant
                without == old(self)@.without_peer(addr),
                old(self).wf(),
                self.wf(),
                self@.subscriptions == without.subscriptions,
                self@.peers == without.peers,
                forall|i: int, j: int| 0 <= i < j < owners@.len() ==> owners@[i].0 != owners@[j].0,
                forall|key: (Vni, Destination, NextHop), owner: SocketAddr| #[trigger]
                    owners@.contains((key, owner)) <==> old(self)@.owns(owner, key),
                forall|key: (Vni, Destination, NextHop)| #[trigger]
                    self@.owners.contains_key(key) <==> old(self)@.owners.contains_key(key)
                        && !gone.contains(key),
                forall|key: (Vni, Destination, NextHop)| #[trigger]
                    self@.owners.contains_key(key) ==> self@.owners[key] == old(self)@.owners[key],
                gone.len() == distributions@.len(),
                forall|key: (Vni, Destination, NextHop)| #[trigger]
                    gone.contains(key) <==> owners@.take(i as int).contains((key, addr)),
                forall|j: int|
                    0 <= j < gone.len() ==> (#[trigger] distributions@[j]).withdraws(
                        gone[j],
                        old(self)@,
                        addr,
                    ),
                gone.no_duplicates(),
        {
            let (key, owner) = owners[i];
            let ghost before = gone;
            proof {
                crate::members::lemma_take_step(owners@, i as int);
                assert(owners@.contains((key, owner))) by {
                    assert(owners@[i as int] == (key, owner));
                }
                assert(!owners@.take(i as int).contains((key, addr))) by {
                    if owners@.take(i as int).contains((key, addr)) {
                        let j = owners@.take(i as int).index_of((key, addr));
                        assert(owners@[j].0 == owners@[i as int].0);
                    }
                }
            }
            if owner == addr {
                self.routes.remove_next_hop(key.0, &key.1, &key.2);
                self.route_owners.remove(key);
                assert(self@.routes =~= self@.owners.dom());
                let recipients = self.subscribers(key.0);
                assert(self@.subscribers(key.0) =~= without.subscribers(key.0));
                let message = Message::Update {
                    action: Action::Remove,
                    vni: key.0,
                    destination: key.1,
                    next_hop: key.2,
                };
                distributions.push(Distribution { message, recipients });
                proof {
                    gone = gone.push(key);
                    assert forall|k: (Vni, Destination, NextHop)| #[trigger]
                        gone.contains(k) <==> before.contains(k) || k == key by {
                        crate::members::lemma_push_contains(before, key, k);
                    }
                    assert(!before.contains(key));
                }
            }
        }
        proof {
            assert(owners@.take(owners@.len() as int) =~= owners@);
            let after = old(self)@.disconnect(addr);
            assert forall|key: (Vni, Destination, NextHop)|
                self@.owners.contains_key(key) == after.owners.contains_key(key) by {
                assert(owners@.contains((key, addr)) <==> old(self)@.owns(addr, key));
            }
            assert(self@.owners =~= after.owners);
            assert(self@.routes =~= after.routes);
            assert(self@ =~= after);
            lemma_withdrawals(old(self)@, addr, distributions@, gone);
        }
        distributions
    }

    /// The numbers of routes, of routes with an owner and of peers.
    pub fn stats(&self) -> (r: (usize, usize, usize))
        requires
            self.wf(),
        ensures
            r.0 == self@.routes.len(),
            r.1 == self@.owners.dom().len(),
            r.2 == self@.peers.len(),
            r.0 == r.1,
    {
        (self.routes.len(), self.route_owners.len(), self.peers.len())
    }
}

/// What a command does to the routing state, and what it asks for.
pub open spec fn handled(
    before: Routing,
    command: RoutingCommand,
    after: Routing,
    reply: RoutingReply,
) -> bool {
    match command {
        RoutingCommand::PeerConnected { addr } => {
            &&& after == before.connect(addr)
            &&& reply is Done
        },
        RoutingCommand::PeerDisconnected { addr } => {
            &&& after == before.disconnect(addr)
            &&& reply matches RoutingReply::Distribute(ds) && withdraws_all(ds@, before, addr)
        },
        RoutingCommand::Subscribe { addr, vni } => {
            &&& after == before.subscribe(addr, vni)
            &&& reply matches RoutingReply::Routes(routes) && routes@.no_duplicates() && forall|
                d: Destination,
                h: NextHop,
            | #[trigger]
                routes@.contains((d, h)) <==> before.routes.contains((vni, d, h))
        },
        RoutingCommand::Unsubscribe { addr, vni } => {
            &&& after == before.unsubscribe(addr, vni)
            &&& reply is Done
        },
        RoutingCommand::Update { from_addr, action, vni, destination, next_hop } => {
            &&& after == before.update(from_addr, action, (vni, destination, next_hop))
            &&& reply matches RoutingReply::Distribute(ds) && ds@.len() == 1 && ds@[0].message == (
            Message::Update { action, vni, destination, next_hop }) && ds@[0].goes_to(
                before.recipients(vni, from_addr),
            )
        },
        RoutingCommand::GetStats => {
            &&& after == before
            &&& reply matches RoutingReply::Stats(routes, owners, peers) && routes
                == before.routes.len() && owners == before.owners.dom().len() && peers
                == before.peers.len()
        },
    }
}

impl RoutingReply {
    /// The messages to hand out.
    pub open spec fn distributions(self) -> Seq<Distribution> {
        match self {
            RoutingReply::Distribute(distributions) => distributions@,
            _ => Seq::empty(),
        }
    }
}

impl RoutingActor {
    /// Handles a command.
    pub fn handle(&mut self, command: RoutingCommand) -> (r: RoutingReply)
        requires
            old(self).wf(),
        ensures
            final(self).wf(),
            handled(old(self)@, command, final(self)@, r),
    {
        match command {
            RoutingCommand::PeerConnected { addr } => {
                self.handle_peer_connected(addr);
                RoutingReply::Done
            },
            RoutingCommand::PeerDisconnected { addr } => RoutingReply::Distribute(
                self.handle_peer_disconnected(addr),
            ),
            RoutingCommand::Subscribe { addr, vni } => RoutingReply::Routes(
                self.handle_subscribe(addr, vni),
            ),
            RoutingCommand::Unsubscribe { addr, vni } => {
                self.handle_unsubscribe(addr, vni);
                RoutingReply::Done
            },
            RoutingCommand::Update { from_addr, action, vni, destination, next_hop } => {
                let distribution = self.handle_update(
                    from_addr,
                    action,
                    vni,
                    destination,
                    next_hop,
                );
                let mut all: Vec<Distribution> = Vec::new();
                all.push(distribution);
                RoutingReply::Distribute(all)
            },
            RoutingCommand::GetStats => {
                let (routes, owners, peers) = self.stats();
                RoutingReply::Stats(routes, owners, peers)
            },
        }
    }
}

impl Default for RoutingActor {
    fn default() -> (r: Self)
        ensures
            r.wf(),
            r@ == Routing::spec_new(),
    {
        Self::new()
    }
}

// ----------------------------------------------------------------------------
// Connection of a client
// ----------------------------------------------------------------------------

/// Takes in the first bytes from a client: its HELLO is answered with one, and the smaller of
/// the two keepalive intervals is agreed on.
pub fn accept_hello(config: &ServerConfig, data: &[u8]) -> (r: Result<(Message, u32), Error>)
    ensures
        match handshake::spec_read_hello(data@) {
            Ok(Some((interval, _))) => r == Ok::<(Message, u32), Error>(
                (
                    Message::Hello {
                        keepalive_interval: config.keepalive_interval,
                        is_server: true,
                    },
                    handshake::spec_negotiate(config.keepalive_interval, interval),
                ),
            ),
            Ok(None) => r matches Err(e) && e.is_protocol("expected HELLO"@),
            Err(failure) => r matches Err(e) && e.reports(failure),
        },
{
    match handshake::read_hello(data) {
        Ok(Some((interval, _))) => {
            let hello = Message::Hello {
                keepalive_interval: config.keepalive_interval,
                is_server: true,
            };
            Ok((hello, handshake::negotiate(config.keepalive_interval, interval)))
        },
        Ok(None) => Err(Error::protocol("expected HELLO")),
        Err(e) => Err(e),
    }
}

/// Takes in the next bytes from a client: its KEEPALIVE is answered with one, and the connection
/// is established.
pub fn accept_keepalive(data: &[u8]) -> (r: Result<Message, Error>)
    ensures
        data@.len() == 0 ==> r matches Err(Error::Closed),
        data@.len() > 0 ==> match Message::spec_decode(data@) {
            Ok((Message::Keepalive, _)) => r == Ok::<Message, Error>(Message::Keepalive),
            Ok(_) => r matches Err(e) && e.is_protocol("expected KEEPALIVE"@),
            Err(failure) => r matches Err(e) && e.reports(failure),
        },
{
    match handshake::read_message(data) {
        Ok(Message::Keepalive) => Ok(Message::Keepalive),
        Ok(_) => Err(Error::protocol("expected KEEPALIVE")),
        Err(e) => Err(e),
    }
}

/// What a message from a client asks for.
#[derive(Debug, Clone, Copy)]
pub enum PeerRequest {
    /// Nothing.
    Ignore,
    /// A message to be sent back.
    Reply(Message),
    /// A command for the routing actor.
    Command(RoutingCommand),
}

/// What a message from a client asks for.
pub open spec fn spec_request(addr: SocketAddr, msg: Message) -> PeerRequest {
    match msg {
        Message::Hello { .. } => PeerRequest::Ignore,
        Message::Keepalive => PeerRequest::Reply(Message::Keepalive),
        Message::Subscribe { vni } => PeerRequest::Command(RoutingCommand::Subscribe { addr, vni }),
        Message::Unsubscribe { vni } => PeerRequest::Command(
            RoutingCommand::Unsubscribe { addr, vni },
        ),
        Message::Update { action, vni, destination, next_hop } => PeerRequest::Command(
            RoutingCommand::Update { from_addr: addr, action, vni, destination, next_hop },
        ),
    }
}

/// Handles a message from a client.
pub fn handle_message(addr: SocketAddr, msg: Message) -> (r: PeerRequest)
    ensures
        r == spec_request(addr, msg),
{
    match msg {
        Message::Hello { .. } => PeerRequest::Ignore,
        Message::Keepalive => PeerRequest::Reply(Message::Keepalive),
        Message::Subscribe { vni } => PeerRequest::Command(RoutingCommand::Subscribe { addr, vni }),
        Message::Unsubscribe { vni } => PeerRequest::Command(
            RoutingCommand::Unsubscribe { addr, vni },
        ),
        Message::Update { action, vni, destination, next_hop } => PeerRequest::Command(
            RoutingCommand::Update { from_addr: addr, action, vni, destination, next_hop },
        ),
    }
}

/// The messages that tell a new subscriber about the routes that exist. One that knows of no route
/// and hears them knows of just these.
pub fn announce_existing(vni: Vni, routes: &Vec<(Destination, NextHop)>) -> (r: Vec<Message>)
    ensures
        forall|route: Route| #[trigger]
            hear_messages(Set::empty(), vni, r@).contains(route) <==> routes@.contains(
                (route.destination, route.next_hop),
            ),
        r@.len() == routes@.len(),
        forall|i: int|
            0 <= i < r@.len() ==> #[trigger] r@[i] == (Message::Update {
                action: Action::Add,
                vni,
                destination: routes@[i].0,
                next_hop: routes@[i].1,
            }),
{
    let mut r: Vec<Message> = Vec::new();
    for i in 0..routes.len()
        invariant
            r@.len() == i,
            forall|j: int|
                0 <= j < i ==> #[trigger] r@[j] == (Message::Update {
                    action: Action::Add,
                    vni,
                    destination: routes@[j].0,
                    next_hop: routes@[j].1,
                }),
    {
        r.push(
            Message::Update {
                action: Action::Add,
                vni,
                destination: routes[i].0,
                next_hop: routes[i].1,
            },
        );
    }
    proof {
        lemma_additions_heard(vni, routes@, r@);
    }
    r
}

// ----------------------------------------------------------------------------
// Laws
// ----------------------------------------------------------------------------

/// The routes of a VNI that a client knows of after a message.
pub open spec fn hear(known: Set<Route>, vni: Vni, message: Message) -> Set<Route> {
    match message {
        Message::Update { action, vni: of, destination, next_hop } => if of != vni {
            known
        } else {
            match action {
                Action::Add => known.insert(Route { destination, next_hop }),
                Action::Remove => known.remove(Route { destination, next_hop }),
            }
        },
        _ => known,
    }
}

/// The routes of a VNI that a client knows of after all messages that go to it.
pub open spec fn hear_all(
    known: Set<Route>,
    vni: Vni,
    distributions: Seq<Distribution>,
    peer: SocketAddr,
) -> Set<Route>
    decreases distributions.len(),
{
    if distributions.len() == 0 {
        known
    } else {
        let earlier = hear_all(known, vni, distributions.drop_last(), peer);
        let last = distributions.last();
        if last.recipients@.contains(peer) {
            hear(earlier, vni, last.message)
        } else {
            earlier
        }
    }
}

/// The routes of a VNI that a client knows of after a list of messages.
pub open spec fn hear_messages(known: Set<Route>, vni: Vni, messages: Seq<Message>) -> Set<Route>
    decreases messages.len(),
{
    if messages.len() == 0 {
        known
    } else {
        hear(hear_messages(known, vni, messages.drop_last()), vni, messages.last())
    }
}

/// Who hears an update of a VNI knows of the route that it announces and not of the one that it
/// withdraws, and of all other routes as before. Other messages, and updates of other VNIs, say
/// nothing about the VNI.
pub proof fn lemma_heard(known: Set<Route>, vni: Vni, message: Message, route: Route)
    ensures
        hear(known, vni, message).contains(route) <==> match message {
            Message::Update { action, vni: of, destination, next_hop } => if of == vni && route == (
            Route { destination, next_hop }) {
                action == Action::Add
            } else {
                known.contains(route)
            },
            _ => known.contains(route),
        },
{
}

/// An update goes to those who are connected and subscribed to its VNI, and never back to the
/// sender.
pub proof fn lemma_recipients(state: Routing, vni: Vni, from_addr: SocketAddr, peer: SocketAddr)
    ensures
        state.recipients(vni, from_addr).contains(peer) <==> state.peers.contains(peer)
            && state.subscriptions.contains((vni, peer)) && peer != from_addr,
        !state.recipients(vni, from_addr).contains(from_addr),
{
}

/// A client that knew the routes of a VNI and hears an update knows the routes of the VNI after
/// the update.
pub proof fn lemma_update_heard(
    state: Routing,
    from_addr: SocketAddr,
    action: Action,
    key: (Vni, Destination, NextHop),
    vni: Vni,
)
    ensures
        route::routes_of(state.update(from_addr, action, key).routes, vni) == hear(
            route::routes_of(state.routes, vni),
            vni,
            Message::Update { action, vni: key.0, destination: key.1, next_hop: key.2 },
        ),
{
    assert(route::routes_of(state.update(from_addr, action, key).routes, vni) =~= hear(
        route::routes_of(state.routes, vni),
        vni,
        Message::Update { action, vni: key.0, destination: key.1, next_hop: key.2 },
    ));
}

/// A client that subscribes to a VNI and hears what it is told then knows the routes of the VNI.
pub proof fn lemma_subscribe_heard(
    state: Routing,
    vni: Vni,
    routes: Seq<(Destination, NextHop)>,
    messages: Seq<Message>,
)
    requires
        forall|d: Destination, h: NextHop| #[trigger]
            routes.contains((d, h)) <==> state.routes.contains((vni, d, h)),
        messages.len() == routes.len(),
        forall|i: int|
            0 <= i < messages.len() ==> #[trigger] messages[i] == (Message::Update {
                action: Action::Add,
                vni,
                destination: routes[i].0,
                next_hop: routes[i].1,
            }),
    ensures
        hear_messages(Set::empty(), vni, messages) == route::routes_of(state.routes, vni),
{
    lemma_additions_heard(vni, routes, messages);
    assert(hear_messages(Set::empty(), vni, messages) =~= route::routes_of(state.routes, vni));
}

proof fn lemma_additions_heard(
    vni: Vni,
    routes: Seq<(Destination, NextHop)>,
    messages: Seq<Message>,
)
    requires
        messages.len() == routes.len(),
        forall|i: int|
            0 <= i < messages.len() ==> #[trigger] messages[i] == (Message::Update {
                action: Action::Add,
                vni,
                destination: routes[i].0,
                next_hop: routes[i].1,
            }),
    ensures
        forall|route: Route| #[trigger]
            hear_messages(Set::empty(), vni, messages).contains(route) <==> routes.contains(
                (route.destination, route.next_hop),
            ),
    decreases messages.len(),
{
    if messages.len() > 0 {
        let fewer = routes.drop_last();
        lemma_additions_heard(vni, fewer, messages.drop_last());
        assert(routes =~= fewer.push(routes.last()));
        assert forall|route: Route| #[trigger]
            hear_messages(Set::empty(), vni, messages).contains(route) <==> routes.contains(
                (route.destination, route.next_hop),
            ) by {
            let e = (route.destination, route.next_hop);
            crate::members::lemma_push_contains(fewer, routes.last(), e);
            let earlier = hear_messages(Set::empty(), vni, messages.drop_last());
            assert(earlier.contains(route) <==> fewer.contains(e));
            assert(messages.last() == (Message::Update {
                action: Action::Add,
                vni,
                destination: routes.last().0,
                next_hop: routes.last().1,
            }));
        }
    }
}

/// When a peer disconnects, a subscriber that knew the routes of a VNI and hears what it is told
/// knows the routes of the VNI that are left.
pub proof fn lemma_disconnect_heard(
    state: Routing,
    addr: SocketAddr,
    distributions: Seq<Distribution>,
    peer: SocketAddr,
    vni: Vni,
)
    requires
        state.wf(),
        withdraws_all(distributions, state, addr),
        peer != addr,
        state.subscribers(vni).contains(peer),
    ensures
        hear_all(route::routes_of(state.routes, vni), vni, distributions, peer)
            == route::routes_of(state.disconnect(addr).routes, vni),
{
    let known = route::routes_of(state.routes, vni);
    assert(state.without_peer(addr).subscribers(vni).contains(peer));
    lemma_withdrawals_heard(state, addr, distributions, peer, vni, distributions.len() as int);
    assert(distributions.take(distributions.len() as int) =~= distributions);
    let heard = hear_all(known, vni, distributions, peer);
    let left = route::routes_of(state.disconnect(addr).routes, vni);
    assert forall|route: Route| heard.contains(route) == left.contains(route) by {
        let key = (vni, route.destination, route.next_hop);
        if state.owns(addr, key) {
            let i = choose|i: int|
                0 <= i < distributions.len() && (#[trigger] distributions[i]).withdraws(
                    key,
                    state,
                    addr,
                );
            assert(distributions[i].message == withdrawal(key));
        } else {
            assert forall|i: int| 0 <= i < distributions.len() implies (
            #[trigger] distributions[i]).message != withdrawal(key) by {
                assert(distributions[i].withdraws_one(state, addr));
                let k = choose|k: (Vni, Destination, NextHop)| #[trigger]
                    distributions[i].withdraws(k, state, addr);
                assert(state.owns(addr, k));
            }
        }
    }
    assert(heard =~= left);
}

proof fn lemma_withdrawals_heard(
    state: Routing,
    addr: SocketAddr,
    distributions: Seq<Distribution>,
    peer: SocketAddr,
    vni: Vni,
    n: int,
)
    requires
        withdraws_all(distributions, state, addr),
        state.without_peer(addr).subscribers(vni).contains(peer),
        0 <= n <= distributions.len(),
    ensures
        forall|route: Route| #[trigger]
            hear_all(
                route::routes_of(state.routes, vni),
                vni,
                distributions.take(n),
                peer,
            ).contains(route) <==> route::routes_of(state.routes, vni).contains(route) && forall|
                i: int,
            |
                0 <= i < n ==> (#[trigger] distributions[i]).message != withdrawal(
                    (vni, route.destination, route.next_hop),
                ),
    decreases n,
{
    let known = route::routes_of(state.routes, vni);
    if n > 0 {
        lemma_withdrawals_heard(state, addr, distributions, peer, vni, n - 1);
        let taken = distributions.take(n);
        assert(taken.drop_last() =~= distributions.take(n - 1));
        let last = distributions[n - 1];
        assert(taken.last() == last);
        assert(last.withdraws_one(state, addr));
        let key = choose|key: (Vni, Destination, NextHop)| #[trigger]
            last.withdraws(key, state, addr);
        if key.0 == vni {
            assert(last.recipients@.to_set().contains(peer));
        }
        let earlier = hear_all(known, vni, distributions.take(n - 1), peer);
        let heard = hear_all(known, vni, taken, peer);
        assert forall|route: Route| #[trigger]
            heard.contains(route) <==> known.contains(route) && forall|i: int|
                0 <= i < n ==> (#[trigger] distributions[i]).message != withdrawal(
                    (vni, route.destination, route.next_hop),
                ) by {
            let k = (vni, route.destination, route.next_hop);
            assert(earlier.contains(route) <==> known.contains(route) && forall|i: int|
                0 <= i < n - 1 ==> (#[trigger] distributions[i]).message != withdrawal(k));
            assert(last.message == withdrawal(key));
            assert(heard.contains(route) <==> earlier.contains(route) && key != k);
            assert(last.message != withdrawal(k) <==> key != k);
        }
    }
}

/// The peer itself stops listening to a VNI with the command.
pub open spec fn leaves(command: RoutingCommand, peer: SocketAddr, vni: Vni) -> bool {
    match command {
        RoutingCommand::PeerDisconnected { addr } => addr == peer,
        RoutingCommand::Unsubscribe { addr, vni: from } => addr == peer && from == vni,
        _ => false,
    }
}

/// The peer itself announces or withdraws a route with the command.
pub open spec fn is_own_update(command: RoutingCommand, peer: SocketAddr) -> bool {
    command matches RoutingCommand::Update { from_addr, .. } && from_addr == peer
}

/// The routes of a VNI that a client knows of after a command was handled: it hears the messages
/// that go to it, and it counts in what it announces or withdraws itself.
pub open spec fn follow(
    known: Set<Route>,
    vni: Vni,
    command: RoutingCommand,
    distributions: Seq<Distribution>,
    peer: SocketAddr,
) -> Set<Route> {
    match command {
        RoutingCommand::Update { from_addr, action, vni: of, destination, next_hop } => if from_addr
            == peer {
            hear(known, vni, Message::Update { action, vni: of, destination, next_hop })
        } else {
            hear_all(known, vni, distributions, peer)
        },
        _ => hear_all(known, vni, distributions, peer),
    }
}

/// Whatever command is handled, a subscriber of a VNI that does not itself leave stays one,
/// and if it knew the routes of the VNI, it knows them afterwards: from what it hears, unless it
/// announced or withdrew a route itself, and then from what it hears and what it did.
pub proof fn lemma_handled_heard(
    before: Routing,
    command: RoutingCommand,
    after: Routing,
    reply: RoutingReply,
    peer: SocketAddr,
    vni: Vni,
)
    requires
        before.wf(),
        handled(before, command, after, reply),
        before.subscribers(vni).contains(peer),
        !leaves(command, peer, vni),
    ensures
        after.wf(),
        after.subscribers(vni).contains(peer),
        follow(
            route::routes_of(before.routes, vni),
            vni,
            command,
            reply.distributions(),
            peer,
        ) == route::routes_of(after.routes, vni),
        !is_own_update(command, peer) ==> hear_all(
            route::routes_of(before.routes, vni),
            vni,
            reply.distributions(),
            peer,
        ) == route::routes_of(after.routes, vni),
{
    let known = route::routes_of(before.routes, vni);
    let distributions = reply.distributions();
    match command {
        RoutingCommand::PeerDisconnected { addr } => {
            lemma_disconnect_heard(before, addr, distributions, peer, vni);
            assert(after.routes =~= after.owners.dom());
        },
        RoutingCommand::Update { from_addr, action, vni: of, destination, next_hop } => {
            let key = (of, destination, next_hop);
            lemma_update_heard(before, from_addr, action, key, vni);
            assert(after.routes =~= after.owners.dom());
            let only = distributions[0];
            assert(distributions.drop_last() =~= Seq::empty());
            assert(hear_all(known, vni, distributions.drop_last(), peer) == known);
            assert(only.recipients@.contains(peer) <==> only.recipients@.to_set().contains(peer));
        },
        _ => {},
    }
}

/// A new server knows of no peer, no subscription and no route.
pub proof fn lemma_new_routing(
    peer: SocketAddr,
    vni: Vni,
    key: (Vni, Destination, NextHop),
)
    ensures
        !Routing::spec_new().peers.contains(peer),
        !Routing::spec_new().subscriptions.contains((vni, peer)),
        !Routing::spec_new().routes.contains(key),
        Routing::spec_new().wf(),
{
    assert(Routing::spec_new().routes =~= Routing::spec_new().owners.dom());
}

/// Who is connected after a command: those who were, and the one that connects, but not the one
/// that disconnects.
pub proof fn lemma_handled_peers(
    before: Routing,
    command: RoutingCommand,
    after: Routing,
    reply: RoutingReply,
    peer: SocketAddr,
)
    requires
        handled(before, command, after, reply),
    ensures
        after.peers.contains(peer) <==> (before.peers.contains(peer) || command == (
        RoutingCommand::PeerConnected { addr: peer })) && command != (
        RoutingCommand::PeerDisconnected { addr: peer }),
{
}

/// Who is subscribed after a command: those who were, and the one that subscribes, but not the one
/// that unsubscribes or disconnects.
pub proof fn lemma_handled_subscriptions(
    before: Routing,
    command: RoutingCommand,
    after: Routing,
    reply: RoutingReply,
    peer: SocketAddr,
    vni: Vni,
)
    requires
        handled(before, command, after, reply),
    ensures
        after.subscriptions.contains((vni, peer)) <==> (before.subscriptions.contains((vni, peer))
            || command == (RoutingCommand::Subscribe { addr: peer, vni })) && command != (
        RoutingCommand::Unsubscribe { addr: peer, vni }) && command != (
        RoutingCommand::PeerDisconnected { addr: peer }),
{
}

/// Which routes there are after a command, and whose they are. An announced route is there and
/// belongs to the one who announced it last; a withdrawn route is gone; the routes of a peer that
/// disconnects are gone; all others stay and keep their owners.
pub proof fn lemma_handled_routes(
    before: Routing,
    command: RoutingCommand,
    after: Routing,
    reply: RoutingReply,
    key: (Vni, Destination, NextHop),
)
    requires
        before.wf(),
        handled(before, command, after, reply),
    ensures
        after.routes.contains(key) == after.owners.contains_key(key),
        match command {
            RoutingCommand::Update { from_addr, action, vni, destination, next_hop } => if key == (
                vni,
                destination,
                next_hop,
            ) {
                &&& after.routes.contains(key) == (action == Action::Add)
                &&& action == Action::Add ==> after.owners[key] == from_addr
            } else {
                &&& after.routes.contains(key) == before.routes.contains(key)
                &&& before.routes.contains(key) ==> after.owners[key] == before.owners[key]
            },
            RoutingCommand::PeerDisconnected { addr } => {
                &&& after.routes.contains(key) == (before.routes.contains(key)
                    && before.owners[key] != addr)
                &&& after.routes.contains(key) ==> after.owners[key] == before.owners[key]
            },
            _ => {
                &&& after.routes.contains(key) == before.routes.contains(key)
                &&& before.routes.contains(key) ==> after.owners[key] == before.owners[key]
            },
        },
{
    assert(after.routes.contains(key) == after.owners.dom().contains(key));
}

/// A peer is handed a message.
pub open spec fn is_told(reply: RoutingReply, peer: SocketAddr, message: Message) -> bool {
    exists|i: int|
        0 <= i < reply.distributions().len() && (#[trigger] reply.distributions()[i]).message
            == message && reply.distributions()[i].recipients@.contains(peer)
}

/// Who is told what when a command is handled: an update is told, as it is, to those who are
/// connected and subscribed to its VNI, but not to the one it came from; when a peer disconnects,
/// the withdrawal of each of its routes is told to all others who are connected and subscribed to
/// the route's VNI; nothing else is told to anyone.
pub proof fn lemma_handled_told(
    before: Routing,
    command: RoutingCommand,
    after: Routing,
    reply: RoutingReply,
    peer: SocketAddr,
    message: Message,
)
    requires
        handled(before, command, after, reply),
    ensures
        is_told(reply, peer, message) <==> match command {
            RoutingCommand::Update { from_addr, action, vni, destination, next_hop } => {
                &&& message == (Message::Update { action, vni, destination, next_hop })
                &&& before.peers.contains(peer)
                &&& before.subscriptions.contains((vni, peer))
                &&& peer != from_addr
            },
            RoutingCommand::PeerDisconnected { addr } => {
                &&& message matches Message::Update { action, vni, destination, next_hop }
                &&& action == Action::Remove
                &&& before.owners.contains_key((vni, destination, next_hop))
                &&& before.owners[(vni, destination, next_hop)] == addr
                &&& before.peers.contains(peer)
                &&& before.subscriptions.contains((vni, peer))
                &&& peer != addr
            },
            _ => false,
        },
{
    let ds = reply.distributions();
    match command {
        RoutingCommand::Update { from_addr, action, vni, destination, next_hop } => {
            assert(ds[0].recipients@.contains(peer) <==> ds[0].recipients@.to_set().contains(peer));
            if message == (Message::Update { action, vni, destination, next_hop })
                && before.recipients(vni, from_addr).contains(peer) {
                assert(ds[0].message == message && ds[0].recipients@.contains(peer));
            }
        },
        RoutingCommand::PeerDisconnected { addr } => {
            if is_told(reply, peer, message) {
                let i = choose|i: int|
                    0 <= i < ds.len() && (#[trigger] ds[i]).message == message
                        && ds[i].recipients@.contains(peer);
                assert(ds[i].withdraws_one(before, addr));
                let key = choose|key: (Vni, Destination, NextHop)| #[trigger]
                    ds[i].withdraws(key, before, addr);
                assert(ds[i].recipients@.to_set().contains(peer));
            }
            if let Message::Update { action: Action::Remove, vni, destination, next_hop } =
                message {
                let key = (vni, destination, next_hop);
                if before.owns(addr, key) && before.without_peer(addr).subscribers(vni).contains(
                    peer,
                ) {
                    let i = choose|i: int|
                        0 <= i < ds.len() && (#[trigger] ds[i]).withdraws(key, before, addr);
                    assert(ds[i].recipients@.to_set().contains(peer));
                    assert(ds[i].message == message && ds[i].recipients@.contains(peer));
                }
            }
        },
        _ => {},
    }
}

/// No one is told anything twice when a command is handled.
pub proof fn lemma_handled_told_once(
    before: Routing,
    command: RoutingCommand,
    after: Routing,
    reply: RoutingReply,
)
    requires
        handled(before, command, after, reply),
    ensures
        forall|i: int, j: int|
            0 <= i < j < reply.distributions().len() ==> (
            #[trigger] reply.distributions()[i]).message != (
            #[trigger] reply.distributions()[j]).message,
        forall|i: int|
            0 <= i < reply.distributions().len() ==> (
            #[trigger] reply.distributions()[i]).recipients@.no_duplicates(),
{
    let ds = reply.distributions();
    if let RoutingCommand::PeerDisconnected { addr } = command {
        assert forall|i: int| 0 <= i < ds.len() implies (
        #[trigger] ds[i]).recipients@.no_duplicates() by {
            assert(ds[i].withdraws_one(before, addr));
            let key = choose|key: (Vni, Destination, NextHop)| #[trigger]
                ds[i].withdraws(key, before, addr);
        }
    }
}

/// What a peer that subscribes to a VNI gets: the routes that exist there, each once. A question
/// for statistics is answered with the numbers of routes, of routes with an owner, which are as
/// many, and of peers.
pub proof fn lemma_handled_replies(
    before: Routing,
    command: RoutingCommand,
    after: Routing,
    reply: RoutingReply,
)
    requires
        before.wf(),
        handled(before, command, after, reply),
    ensures
        match command {
            RoutingCommand::Subscribe { vni, .. } => reply matches RoutingReply::Routes(routes)
                && routes@.no_duplicates() && (forall|d: Destination, h: NextHop| #[trigger]
                routes@.contains((d, h)) <==> after.routes.contains((vni, d, h))),
            RoutingCommand::GetStats => reply matches RoutingReply::Stats(routes, owners, peers)
                && routes == after.routes.len() && owners == routes && peers == after.peers.len(),
            RoutingCommand::Update { .. } | RoutingCommand::PeerDisconnected {
                ..
            } => reply is Distribute,
            RoutingCommand::PeerConnected { .. } | RoutingCommand::Unsubscribe {
                ..
            } => reply is Done,
        },
{
}

/// After a peer unsubscribed from a VNI it is not subscribed to it, whatever routes there are, and
/// no update in the VNI goes to it. What others are subscribed to stays, and what the peer is
/// subscribed to elsewhere.
pub proof fn lemma_unsubscribed(
    state: Routing,
    addr: SocketAddr,
    vni: Vni,
    from_addr: SocketAddr,
    other: (Vni, SocketAddr),
)
    ensures
        !state.unsubscribe(addr, vni).subscriptions.contains((vni, addr)),
        !state.unsubscribe(addr, vni).subscribers(vni).contains(addr),
        !state.unsubscribe(addr, vni).recipients(vni, from_addr).contains(addr),
        other != (vni, addr) ==> state.unsubscribe(addr, vni).subscriptions.contains(other)
            == state.subscriptions.contains(other),
        state.unsubscribe(addr, vni).routes == state.routes,
        state.unsubscribe(addr, vni).owners == state.owners,
        state.unsubscribe(addr, vni).peers == state.peers,
{
}

/// After a peer that is connected subscribed to a VNI, the updates in the VNI go to it that come
/// from others. What others are subscribed to stays, and what the peer is subscribed to elsewhere.
pub proof fn lemma_subscribed(
    state: Routing,
    addr: SocketAddr,
    vni: Vni,
    from_addr: SocketAddr,
    other: (Vni, SocketAddr),
)
    ensures
        state.subscribe(addr, vni).subscriptions.contains((vni, addr)),
        state.peers.contains(addr) ==> state.subscribe(addr, vni).subscribers(vni).contains(addr),
        state.peers.contains(addr) && from_addr != addr ==> state.subscribe(addr, vni).recipients(
            vni,
            from_addr,
        ).contains(addr),
        other != (vni, addr) ==> state.subscribe(addr, vni).subscriptions.contains(other)
            == state.subscriptions.contains(other),
        state.subscribe(addr, vni).routes == state.routes,
        state.subscribe(addr, vni).owners == state.owners,
        state.subscribe(addr, vni).peers == state.peers,
{
}

/// A peer that is not subscribed to a VNI is told nothing about it, and stays so until it
/// subscribes.
pub proof fn lemma_not_subscribed_not_told(
    before: Routing,
    command: RoutingCommand,
    after: Routing,
    reply: RoutingReply,
    peer: SocketAddr,
    vni: Vni,
    message: Message,
)
    requires
        handled(before, command, after, reply),
        !before.subscriptions.contains((vni, peer)),
        command != (RoutingCommand::Subscribe { addr: peer, vni }),
    ensures
        !after.subscriptions.contains((vni, peer)),
        is_told(reply, peer, message) ==> (message matches Message::Update { vni: of, .. } && of
            != vni),
{
    lemma_handled_told(before, command, after, reply, peer, message);
}

/// A peer that messages pile up for is no longer connected or subscribed; the others stay, and so
/// do all routes and their owners.
pub proof fn lemma_without_peers(
    state: Routing,
    addrs: Seq<SocketAddr>,
    peer: SocketAddr,
    vni: Vni,
)
    ensures
        state.without_peers(addrs).peers.contains(peer) <==> state.peers.contains(peer)
            && !addrs.contains(peer),
        state.without_peers(addrs).subscriptions.contains((vni, peer))
            <==> state.subscriptions.contains((vni, peer)) && !addrs.contains(peer),
        state.without_peers(addrs).routes == state.routes,
        state.without_peers(addrs).owners == state.owners,
{
}

/// What becomes of a message from a client: an update is told to the others as it is and decides
/// whether the very route it names is there; a subscription and its end are those of the client
/// for the VNI of the message; a KEEPALIVE is answered with one; a HELLO asks for nothing.
pub proof fn lemma_request_handled(
    addr: SocketAddr,
    message: Message,
    before: Routing,
    after: Routing,
    reply: RoutingReply,
    peer: SocketAddr,
)
    requires
        before.wf(),
        spec_request(addr, message) matches PeerRequest::Command(command) ==> handled(
            before,
            command,
            after,
            reply,
        ),
    ensures
        match message {
            Message::Update { action, vni, destination, next_hop } => {
                let key = (vni, destination, next_hop);
                &&& spec_request(addr, message) is Command
                &&& forall|m: Message| #[trigger]
                    is_told(reply, peer, m) <==> m == message && before.peers.contains(peer)
                        && before.subscriptions.contains((vni, peer)) && peer != addr
                &&& action == Action::Add ==> after.routes == before.routes.insert(key)
                    && after.owners == before.owners.insert(key, addr)
                &&& action == Action::Remove ==> after.routes == before.routes.remove(key)
                    && after.owners == before.owners.remove(key)
                &&& after.subscriptions == before.subscriptions
                &&& after.peers == before.peers
            },
            Message::Subscribe { vni } => {
                &&& spec_request(addr, message) is Command
                &&& after.subscriptions == before.subscriptions.insert((vni, addr))
                &&& after.routes == before.routes && after.owners == before.owners
                &&& after.peers == before.peers
                &&& reply matches RoutingReply::Routes(routes) && (forall|
                    d: Destination,
                    h: NextHop,
                | #[trigger]
                    routes@.contains((d, h)) <==> before.routes.contains((vni, d, h)))
            },
            Message::Unsubscribe { vni } => {
                &&& spec_request(addr, message) is Command
                &&& after.subscriptions == before.subscriptions.remove((vni, addr))
                &&& after.routes == before.routes && after.owners == before.owners
                &&& after.peers == before.peers
                &&& reply is Done
            },
            Message::Keepalive => spec_request(addr, message) == PeerRequest::Reply(
                Message::Keepalive,
            ),
            Message::Hello { .. } => spec_request(addr, message) is Ignore,
        },
{
    match spec_request(addr, message) {
        PeerRequest::Command(command) => {
            assert forall|m: Message| #[trigger]
                is_told(reply, peer, m) implies m == message || !(message is Update) by {
                lemma_handled_told(before, command, after, reply, peer, m);
            }
            lemma_handled_told(before, command, after, reply, peer, message);
        },
        _ => {},
    }
}

/// When a peer disconnects, no route, subscription or entry of it is left, and what the other
/// peers announced and subscribed to stays.
pub proof fn lemma_disconnect_cleans_up(
    state: Routing,
    addr: SocketAddr,
    other: SocketAddr,
    key: (Vni, Destination, NextHop),
)
    requires
        state.wf(),
    ensures
        state.disconnect(addr).wf(),
        !state.disconnect(addr).owns(addr, key),
        !state.disconnect(addr).peers.contains(addr),
        !state.disconnect(addr).subscriptions.contains((key.0, addr)),
        other != addr ==> {
            &&& state.disconnect(addr).owns(other, key) == state.owns(other, key)
            &&& state.disconnect(addr).peers.contains(other) == state.peers.contains(other)
            &&& state.disconnect(addr).subscriptions.contains((key.0, other))
                == state.subscriptions.contains((key.0, other))
        },
{
    assert(state.disconnect(addr).routes =~= state.disconnect(addr).owners.dom());
}

/// What makes distributions hand out all withdrawals.
proof fn lemma_withdrawals(
    before: Routing,
    addr: SocketAddr,
    distributions: Seq<Distribution>,
    gone: Seq<(Vni, Destination, NextHop)>,
)
    requires
        gone.len() == distributions.len(),
        gone.no_duplicates(),
        forall|key: (Vni, Destination, NextHop)| #[trigger]
            gone.contains(key) <==> before.owns(addr, key),
        forall|j: int|
            0 <= j < gone.len() ==> (#[trigger] distributions[j]).withdraws(gone[j], before, addr),
    ensures
        withdraws_all(distributions, before, addr),
{
    assert forall|i: int, j: int| 0 <= i < j < distributions.len() implies (
    #[trigger] distributions[i]).message != (#[trigger] distributions[j]).message by {
        assert(gone[i] != gone[j]);
        assert(distributions[i].withdraws(gone[i], before, addr));
        assert(distributions[j].withdraws(gone[j], before, addr));
    }
    assert forall|i: int| 0 <= i < distributions.len() implies (
    #[trigger] distributions[i]).withdraws_one(before, addr) by {
        assert(distributions[i].withdraws(gone[i], before, addr));
    }
    assert forall|key: (Vni, Destination, NextHop)| #[trigger]
        before.owns(addr, key) implies exists|i: int|
        0 <= i < distributions.len() && (#[trigger] distributions[i]).withdraws(
            key,
            before,
            addr,
        ) by {
        assert(gone.contains(key));
        let i = gone.index_of(key);
        assert(distributions[i].withdraws(key, before, addr));
    }
}

} // verus!
