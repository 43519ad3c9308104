//! MetalBond client state.
//!
//! A client connects to one or more MetalBond servers for route distribution. With multiple
//! servers it provides high availability and ECMP (Equal-Cost Multi-Path) support:
//!
//! - **Single or Multi-Server**: Works with one server or many
//! - **Active-Active**: Connects to all configured servers simultaneously
//! - **ECMP**: Different next-hops from different servers are combined
//! - **Route Origin Tracking**: Routes are only removed when ALL servers withdraw them
//! - **Automatic Deduplication**: Duplicate routes from multiple servers trigger only one handler
//!   call
//!
//! What is to be sent to which server is decided here, the sending is left to the caller.

use vstd::prelude::*;

use crate::error::Error;
use crate::handler::{self, RouteEvent};
use crate::members::Members;
use crate::origins::{self, RouteOriginTracker};
use crate::peer::{self, PeerCommand, PeerEvent, PeerReaction, PeerState};
use crate::route::{self, Route, RouteTable};
use crate::types::{Action, ConnectionState, Destination, NextHop, Vni};
use crate::wire::Message;

pub use crate::origins::ServerId;

verus! {

/// Connection state when using multiple servers.
#[derive(Debug, Clone, Copy, PartialEq, Eq, Structural)]
pub enum ClientState {
    /// No servers connected.
    Disconnected,
    /// At least one server connected, but not all.
    PartiallyConnected {
        /// Number of servers currently connected.
        connected: usize,
        /// Total number of configured servers.
        total: usize,
    },
    /// All servers connected.
    FullyConnected,
    /// Client has been shut down.
    Closed,
}

// ----------------------------------------------------------------------------
// Connection states
// ----------------------------------------------------------------------------

/// How many connections are established.
pub open spec fn spec_connected(states: Seq<ConnectionState>) -> nat
    decreases states.len(),
{
    if states.len() == 0 {
        0
    } else {
        spec_connected(states.drop_last()) + if states.last() == ConnectionState::Established {
            1nat
        } else {
            0nat
        }
    }
}

/// A connection is closed.
pub open spec fn any_closed(states: Seq<ConnectionState>) -> bool {
    exists|i: int| 0 <= i < states.len() && states[i] == ConnectionState::Closed
}

/// A connection is established.
pub open spec fn any_established(states: Seq<ConnectionState>) -> bool {
    exists|i: int| 0 <= i < states.len() && states[i] == ConnectionState::Established
}

/// All connections are closed.
pub open spec fn all_closed(states: Seq<ConnectionState>) -> bool {
    forall|i: int| 0 <= i < states.len() ==> states[i] == ConnectionState::Closed
}

/// All connections are established.
pub open spec fn all_established(states: Seq<ConnectionState>) -> bool {
    forall|i: int| 0 <= i < states.len() ==> states[i] == ConnectionState::Established
}

/// The combined state of some connections.
pub open spec fn spec_client_state(states: Seq<ConnectionState>) -> ClientState {
    let connected = spec_connected(states);
    if any_closed(states) && connected == 0 {
        ClientState::Closed
    } else if connected == 0 {
        ClientState::Disconnected
    } else if connected == states.len() {
        ClientState::FullyConnected
    } else {
        ClientState::PartiallyConnected {
            connected: connected as usize,
            total: states.len() as usize,
        }
    }
}

/// How many connections are established.
fn count_connected(states: &Vec<ConnectionState>) -> (r: usize)
    ensures
        r == spec_connected(states@),
        r <= states@.len(),
{
    let mut connected: usize = 0;
    for i in 0..states.len()
        invariant
            connected == spec_connected(states@.take(i as int)),
            connected <= i,
    {
        assert(states@.take(i + 1).drop_last() =~= states@.take(i as int));
        if states[i] == ConnectionState::Established {
            connected = connected + 1;
        }
    }
    assert(states@.take(states@.len() as int) =~= states@);
    connected
}

/// Whether a connection is in a given state.
fn has_state(states: &Vec<ConnectionState>, state: ConnectionState) -> (r: bool)
    ensures
        r == exists|i: int| 0 <= i < states@.len() && states@[i] == state,
{
    for i in 0..states.len()
        invariant
            forall|j: int| 0 <= j < i ==> states@[j] != state,
    {
        if states[i] == state {
            return true;
        }
    }
    false
}

/// Whether all connections are in a given state.
fn all_in_state(states: &Vec<ConnectionState>, state: ConnectionState) -> (r: bool)
    ensures
        r == forall|i: int| 0 <= i < states@.len() ==> states@[i] == state,
{
    for i in 0..states.len()
        invariant
            forall|j: int| 0 <= j < i ==> states@[j] == state,
    {
        if states[i] != state {
            return false;
        }
    }
    true
}

/// The servers whose connections are established, in order.
pub open spec fn established_servers(states: Seq<ConnectionState>) -> Seq<ServerId>
    decreases states.len(),
{
    if states.len() == 0 {
        Seq::empty()
    } else {
        let servers = established_servers(states.drop_last());
        if states.last() == ConnectionState::Established {
            servers.push(ServerId((states.len() - 1) as usize))
        } else {
            servers
        }
    }
}

/// The command for each server of a list.
pub open spec fn commands_for(servers: Seq<ServerId>, command: PeerCommand) -> Seq<
    (ServerId, PeerCommand),
> {
    servers.map_values(|server: ServerId| (server, command))
}

/// All servers, in order.
pub open spec fn all_servers(count: nat) -> Seq<ServerId> {
    Seq::new(count, |i: int| ServerId(i as usize))
}

/// The command for each server whose connection is established.
fn command_established(states: &Vec<ConnectionState>, command: PeerCommand) -> (r: Vec<
    (ServerId, PeerCommand),
>)
    ensures
        r@ == commands_for(established_servers(states@), command),
{
    let mut commands: Vec<(ServerId, PeerCommand)> = Vec::new();
    assert(commands@ =~= commands_for(established_servers(states@.take(0)), command));
    for i in 0..states.len()
        invariant
            commands@ == commands_for(established_servers(states@.take(i as int)), command),
    {
        assert(states@.take(i + 1).drop_last() =~= states@.take(i as int));
        if states[i] == ConnectionState::Established {
            commands.push((ServerId(i), command));
        }
        assert(commands@ =~= commands_for(established_servers(states@.take(i + 1)), command));
    }
    assert(states@.take(states@.len() as int) =~= states@);
    commands
}

/// The command for each server.
fn command_all(count: usize, command: PeerCommand) -> (r: Vec<(ServerId, PeerCommand)>)
    ensures
        r@ == commands_for(all_servers(count as nat), command),
{
    let mut commands: Vec<(ServerId, PeerCommand)> = Vec::new();
    for i in 0..count
        invariant
            commands@.len() == i,
            forall|j: int| 0 <= j < i ==> #[trigger] commands@[j] == (ServerId(j as usize), command),
    {
        commands.push((ServerId(i), command));
    }
    assert(commands@ =~= commands_for(all_servers(count as nat), command));
    commands
}

// ----------------------------------------------------------------------------
// Client
// ----------------------------------------------------------------------------

/// State of a MetalBond client that connects to one or more MetalBond servers.
#[derive(Debug)]
pub struct MetalBondClient {
    server_addrs: Vec<String>,
    states: Vec<ConnectionState>,
    origins: RouteOriginTracker,
    subscriptions: Members<Vni>,
    announced_routes: RouteTable,
}

/// The state of a client.
#[verifier::ext_equal]
pub struct Client {
    /// The addresses of the servers.
    pub addrs: Seq<Seq<char>>,
    /// The states of the connections to them.
    pub states: Seq<ConnectionState>,
    /// The received routes, with the servers that announced them.
    pub origins: Map<(Vni, Destination, NextHop), Set<ServerId>>,
    /// The VNIs that the client is subscribed to.
    pub subscriptions: Set<Vni>,
    /// The routes that the client announces.
    pub announced: Set<(Vni, Destination, NextHop)>,
}

impl View for MetalBondClient {
    type V = Client;

    closed spec fn view(&self) -> Client {
        Client {
            addrs: self.server_addrs@.map_values(|addr: String| addr@),
            states: self.states@,
            origins: self.origins@,
            subscriptions: self.subscriptions@,
            announced: self.announced_routes@,
        }
    }
}

impl MetalBondClient {
    /// There is one connection for each server, and what is stored is consistent.
    pub closed spec fn wf(&self) -> bool {
        &&& self.server_addrs@.len() == self.states@.len()
        &&& self.origins.wf()
        &&& self.subscriptions.wf()
        &&& self.announced_routes.wf()
    }

    /// There is one connection for each server, every received route has a server, and what is
    /// stored is finite.
    pub proof fn lemma_consistent(&self)
        requires
            self.wf(),
        ensures
            self@.addrs.len() == self@.states.len(),
            origins::all_announced(self@.origins),
            self@.origins.dom().finite(),
            self@.subscriptions.finite(),
            self@.announced.finite(),
    {
        self.origins.lemma_all_announced();
        self.origins.lemma_finite();
        self.subscriptions.lemma_finite();
        self.announced_routes.lemma_finite();
    }

    /// Creates the state of a client for some servers, of which there may be none.
    pub(crate) fn with_servers(servers: &[&str]) -> (r: Self)
        ensures
            r.wf(),
            r@.addrs.len() == servers@.len(),
            forall|i: int| 0 <= i < servers@.len() ==> #[trigger] r@.addrs[i] == servers@[i]@,
            r@.states == Seq::new(servers@.len(), |i: int| ConnectionState::Connecting),
            r@.origins == Map::<(Vni, Destination, NextHop), Set<ServerId>>::empty(),
            r@.subscriptions == Set::<Vni>::empty(),
            r@.announced == Set::<(Vni, Destination, NextHop)>::empty(),
    {
        let mut server_addrs: Vec<String> = Vec::new();
        let mut states: Vec<ConnectionState> = Vec::new();
        for i in 0..servers.len()
            invariant
                server_addrs@.len() == i,
                states@.len() == i,
                forall|j: int| 0 <= j < i ==> (#[trigger] server_addrs@[j])@ == servers@[j]@,
                forall|j: int| 0 <= j < i ==> states@[j] == ConnectionState::Connecting,
        {
            server_addrs.push(servers[i].to_owned());
            states.push(ConnectionState::Connecting);
        }
        assert(states@ =~= Seq::new(servers@.len(), |i: int| ConnectionState::Connecting));
        Self {
            server_addrs,
            states,
            origins: RouteOriginTracker::new(),
            subscriptions: Members::new(),
            announced_routes: RouteTable::new(),
        }
    }

    /// Creates the state of a client for the specified servers, which are about to be connected
    /// to. At least one server address is required.
    pub fn connect(servers: &[&str]) -> (r: Self)
        requires
            servers@.len() > 0,
        ensures
            r.wf(),
            r@.addrs.len() == servers@.len(),
            forall|i: int| 0 <= i < servers@.len() ==> #[trigger] r@.addrs[i] == servers@[i]@,
            r@.states == Seq::new(servers@.len(), |i: int| ConnectionState::Connecting),
            r@.origins == Map::<(Vni, Destination, NextHop), Set<ServerId>>::empty(),
            r@.subscriptions == Set::<Vni>::empty(),
            r@.announced == Set::<(Vni, Destination, NextHop)>::empty(),
    {
        Self::with_servers(servers)
    }

    /// Takes in the state of the connection to a server.
    pub fn set_server_state(&mut self, server: ServerId, state: ConnectionState)
        requires
            old(self).wf(),
            server.0 < old(self)@.states.len(),
        ensures
            final(self).wf(),
            final(self)@ == (Client {
                states: old(self)@.states.update(server.0 as int, state),
                ..old(self)@
            }),
    {
        self.states.set(server.0, state);
    }

    /// Returns the current connection state.
    pub fn state(&self) -> (r: ClientState)
        requires
            self.wf(),
        ensures
            r == spec_client_state(self@.states),
    {
        let connected = count_connected(&self.states);
        let any_closed = has_state(&self.states, ConnectionState::Closed);
        if any_closed && connected == 0 {
            ClientState::Closed
        } else if connected == 0 {
            ClientState::Disconnected
        } else if connected == self.states.len() {
            ClientState::FullyConnected
        } else {
            ClientState::PartiallyConnected { connected, total: self.states.len() }
        }
    }

    /// What a wait for at least one server has come to: success once one is established, an
    /// error once all are closed, nothing yet otherwise.
    pub fn any_established_outcome(&self) -> (r: Option<Result<(), Error>>)
        requires
            self.wf(),
        ensures
            match r {
                Some(Ok(())) => any_established(self@.states),
                Some(Err(e)) => e is Closed && all_closed(self@.states),
                None => !any_established(self@.states) && !all_closed(self@.states),
            },
    {
        if has_state(&self.states, ConnectionState::Established) {
            Some(Ok(()))
        } else if all_in_state(&self.states, ConnectionState::Closed) {
            Some(Err(Error::Closed))
        } else {
            None
        }
    }

    /// What a wait for all servers has come to: success once all are established, an error once
    /// one is closed, nothing yet otherwise.
    pub fn all_established_outcome(&self) -> (r: Option<Result<(), Error>>)
        requires
            self.wf(),
        ensures
            match r {
                Some(Ok(())) => all_established(self@.states),
                Some(Err(e)) => e is Closed && any_closed(self@.states),
                None => !all_established(self@.states) && !any_closed(self@.states),
            },
    {
        if all_in_state(&self.states, ConnectionState::Established) {
            Some(Ok(()))
        } else if has_state(&self.states, ConnectionState::Closed) {
            Some(Err(Error::Closed))
        } else {
            None
        }
    }

    /// Returns true if at least one server is connected.
    pub fn is_established(&self) -> (r: bool)
        requires
            self.wf(),
        ensures
            r == any_established(self@.states),
    {
        has_state(&self.states, ConnectionState::Established)
    }

    /// Subscribes to a VNI on all connected servers: returns what is to be sent to which. The
    /// subscription is kept for servers that connect later.
    pub fn subscribe(&mut self, vni: Vni) -> (r: Vec<(ServerId, PeerCommand)>)
        requires
            old(self).wf(),
        ensures
            final(self).wf(),
            final(self)@ == (Client {
                subscriptions: old(self)@.subscriptions.insert(vni),
                ..old(self)@
            }),
            r@ == commands_for(
                established_servers(old(self)@.states),
                PeerCommand::Subscribe(vni),
            ),
    {
        self.subscriptions.insert(vni);
        command_established(&self.states, PeerCommand::Subscribe(vni))
    }

    /// Unsubscribes from a VNI on all servers: returns what is to be sent to which.
    pub fn unsubscribe(&mut self, vni: Vni) -> (r: Vec<(ServerId, PeerCommand)>)
        requires
            old(self).wf(),
        ensures
            final(self).wf(),
            final(self)@ == (Client {
                subscriptions: old(self)@.subscriptions.remove(vni),
                ..old(self)@
            }),
            r@ == commands_for(
                all_servers(old(self)@.states.len()),
                PeerCommand::Unsubscribe(vni),
            ),
    {
        self.subscriptions.remove(vni);
        command_all(self.states.len(), PeerCommand::Unsubscribe(vni))
    }

    /// Announces a route to all connected servers: returns what is to be sent to which. The route
    /// is kept for servers that connect later.
    pub fn announce(&mut self, vni: Vni, destination: Destination, next_hop: NextHop) -> (r: Result<
        Vec<(ServerId, PeerCommand)>,
        Error,
    >)
        requires
            old(self).wf(),
        ensures
            final(self).wf(),
            old(self)@.announced.contains((vni, destination, next_hop)) ==> {
                &&& r matches Err(Error::RouteAlreadyAnnounced)
                &&& final(self)@ == old(self)@
            },
            !old(self)@.announced.contains((vni, destination, next_hop)) ==> {
                &&& r matches Ok(commands) && commands@ == commands_for(
                    established_servers(old(self)@.states),
                    PeerCommand::SendUpdate(
                        Message::Update { action: Action::Add, vni, destination, next_hop },
                    ),
                )
                &&& final(self)@ == (Client {
                    announced: old(self)@.announced.insert((vni, destination, next_hop)),
                    ..old(self)@
                })
            },
    {
        if self.announced_routes.next_hop_exists(vni, &destination, &next_hop) {
            return Err(Error::RouteAlreadyAnnounced);
        }
        self.announced_routes.add_next_hop(vni, destination, next_hop);
        let msg = Message::Update { action: Action::Add, vni, destination, next_hop };
        Ok(command_established(&self.states, PeerCommand::SendUpdate(msg)))
    }

    /// Withdraws a route from all servers: returns what is to be sent to which.
    pub fn withdraw(&mut self, vni: Vni, destination: Destination, next_hop: NextHop) -> (r: Result<
        Vec<(ServerId, PeerCommand)>,
        Error,
    >)
        requires
            old(self).wf(),
        ensures
            final(self).wf(),
            !old(self)@.announced.contains((vni, destination, next_hop)) ==> {
                &&& r matches Err(Error::RouteNotFound)
                &&& final(self)@ == old(self)@
            },
            old(self)@.announced.contains((vni, destination, next_hop)) ==> {
                &&& r matches Ok(commands) && commands@ == commands_for(
                    all_servers(old(self)@.states.len()),
                    PeerCommand::SendUpdate(
                        Message::Update { action: Action::Remove, vni, destination, next_hop },
                    ),
                )
                &&& final(self)@ == (Client {
                    announced: old(self)@.announced.remove((vni, destination, next_hop)),
                    ..old(self)@
                })
            },
    {
        if !self.announced_routes.next_hop_exists(vni, &destination, &next_hop) {
            return Err(Error::RouteNotFound);
        }
        self.announced_routes.remove_next_hop(vni, &destination, &next_hop);
        let msg = Message::Update { action: Action::Remove, vni, destination, next_hop };
        Ok(command_all(self.states.len(), PeerCommand::SendUpdate(msg)))
    }

    /// What a subscription or an announcement has come to: it must have reached a server.
    pub fn sent_outcome(sent_any: bool) -> (r: Result<(), Error>)
        ensures
            sent_any ==> r is Ok,
            !sent_any ==> r matches Err(Error::NotEstablished),
    {
        if sent_any {
            Ok(())
        } else {
            Err(Error::NotEstablished)
        }
    }

    /// What a server is told when the connection to it is established.
    pub fn resync(&self) -> (r: Vec<Message>)
        requires
            self.wf(),
        ensures
            peer::resyncs(r@, self@.subscriptions, self@.announced),
    {
        peer::resync(&self.subscriptions, &self.announced_routes)
    }

    /// Takes in what happened to the connection to a server, and returns what is to be done on
    /// the connection and what the user is to be told.
    pub fn step(&mut self, server: ServerId, peer: &mut PeerState, event: PeerEvent) -> (r: (
        PeerReaction,
        Vec<RouteEvent>,
    ))
        requires
            old(self).wf(),
            server.0 < old(self)@.states.len(),
            old(peer).wf(),
            old(peer).expects(event),
        ensures
            final(self).wf(),
            final(peer).wf(),
            peer::stepped(
                old(peer),
                final(peer),
                event,
                old(self)@.subscriptions,
                old(self)@.announced,
                r.0,
            ),
            final(self)@ == (Client {
                states: old(self)@.states.update(server.0 as int, final(peer).state),
                origins: origins::track_events(old(self)@.origins, server, r.0.events@),
                ..old(self)@
            }),
            r.1@ == origins::passed_events(old(self)@.origins, server, r.0.events@),
    {
        let reaction = peer.step(event, &self.subscriptions, &self.announced_routes);
        self.states.set(server.0, peer.state);
        let told = self.origins.deduplicate(server, &reaction.events);
        (reaction, told)
    }

    /// Takes in what one server told about routes, and returns what the user is to be told.
    pub fn routes_changed(&mut self, server: ServerId, events: &Vec<RouteEvent>) -> (r: Vec<
        RouteEvent,
    >)
        requires
            old(self).wf(),
        ensures
            final(self).wf(),
            final(self)@ == (Client {
                origins: origins::track_events(old(self)@.origins, server, events@),
                ..old(self)@
            }),
            r@ == origins::passed_events(old(self)@.origins, server, events@),
    {
        self.origins.deduplicate(server, events)
    }

    /// Returns all received routes for a VNI (deduplicated across servers).
    pub fn get_received_routes(&self, vni: Vni) -> (r: Vec<Route>)
        requires
            self.wf(),
        ensures
            r@.no_duplicates(),
            r@.to_set() == route::routes_of(self@.origins.dom(), vni),
    {
        let keys = self.origins.keys();
        let mut routes: Vec<Route> = Vec::new();
        for i in 0..keys.len()
            invariant
                keys@.no_duplicates(),
                routes@.no_duplicates(),
                forall|route: Route| #[trigger]
                    routes@.contains(route) <==> keys@.take(i as int).contains(
                        (vni, route.destination, route.next_hop),
                    ),
        {
            let key = keys[i];
            let ghost before = routes@;
            proof {
                crate::members::lemma_take_step(keys@, i as int);
                crate::members::lemma_fresh(keys@, i as int);
            }
            if key.0 == vni {
                let route = Route::new(key.1, key.2);
                assert(!before.contains(route));
                routes.push(route);
            }
            assert forall|route: Route| #[trigger]
                routes@.contains(route) <==> keys@.take(i + 1).contains(
                    (vni, route.destination, route.next_hop),
                ) by {
                if key.0 == vni {
                    crate::members::lemma_push_contains(
                        before,
                        Route { destination: key.1, next_hop: key.2 },
                        route,
                    );
                }
            }
        }
        proof {
            assert(keys@.take(keys@.len() as int) =~= keys@);
            assert forall|route: Route|
                routes@.to_set().contains(route) == route::routes_of(
                    self@.origins.dom(),
                    vni,
                ).contains(route) by {
                let key = (vni, route.destination, route.next_hop);
                assert(keys@.to_set().contains(key) == self@.origins.dom().contains(key));
            }
            assert(routes@.to_set() =~= route::routes_of(self@.origins.dom(), vni));
        }
        routes
    }

    /// Returns all announced routes.
    pub fn get_announced_routes(&self) -> (r: Vec<(Vni, Route)>)
        requires
            self.wf(),
        ensures
            r@.no_duplicates(),
            r@.to_set() == route::vni_routes(self@.announced),
    {
        self.announced_routes.get_all_routes()
    }

    /// Returns the number of unique routes tracked across all servers.
    pub fn route_count(&self) -> (r: usize)
        requires
            self.wf(),
        ensures
            r == self@.origins.dom().len(),
    {
        self.origins.len()
    }

    /// Returns true if no routes are being tracked.
    pub fn is_route_table_empty(&self) -> (r: bool)
        requires
            self.wf(),
        ensures
            r == (self@.origins.dom() == Set::<(Vni, Destination, NextHop)>::empty()),
    {
        self.origins.is_empty()
    }

    /// Returns per-server connection states.
    pub fn server_states(&self) -> (r: Vec<(ServerId, ConnectionState)>)
        requires
            self.wf(),
        ensures
            r@.len() == self@.states.len(),
            forall|i: int|
                0 <= i < r@.len() ==> #[trigger] r@[i] == (ServerId(i as usize), self@.states[i]),
    {
        let mut r: Vec<(ServerId, ConnectionState)> = Vec::new();
        for i in 0..self.states.len()
            invariant
                r@.len() == i,
                forall|j: int|
                    0 <= j < i ==> #[trigger] r@[j] == (ServerId(j as usize), self.states@[j]),
        {
            r.push((ServerId(i), self.states[i]));
        }
        r
    }

    /// Returns the number of configured servers.
    pub fn server_count(&self) -> (r: usize)
        requires
            self.wf(),
        ensures
            r == self@.states.len(),
    {
        self.states.len()
    }

    /// Returns the number of currently connected servers.
    pub fn connected_count(&self) -> (r: usize)
        requires
            self.wf(),
        ensures
            r == spec_connected(self@.states),
    {
        count_connected(&self.states)
    }

    /// Returns the address for a server ID.
    pub fn server_addr(&self, id: ServerId) -> (r: Option<&str>)
        requires
            self.wf(),
        ensures
            match r {
                Some(addr) => id.0 < self@.addrs.len() && addr@ == self@.addrs[id.0 as int],
                None => id.0 >= self@.addrs.len(),
            },
    {
        if id.0 < self.server_addrs.len() {
            Some(self.server_addrs[id.0].as_str())
        } else {
            None
        }
    }

    /// Returns which servers announced a specific route.
    pub fn get_route_servers(&self, vni: Vni, dest: &Destination, hop: &NextHop) -> (r: Option<
        Vec<ServerId>,
    >)
        requires
            self.wf(),
        ensures
            match r {
                Some(servers) => {
                    &&& self@.origins.contains_key((vni, *dest, *hop))
                    &&& servers@.no_duplicates()
                    &&& servers@.to_set() == self@.origins[(vni, *dest, *hop)]
                },
                None => !self@.origins.contains_key((vni, *dest, *hop)),
            },
    {
        self.origins.get_servers(vni, dest, hop)
    }

    /// Removes all routes from a specific server, and returns what the user is to be told: the
    /// removal of the routes that no other server announced.
    ///
    /// Call this when you detect a server has permanently disconnected to clean up routes that
    /// were only announced by that server.
    pub fn remove_server_routes(&mut self, server: ServerId) -> (r: Vec<RouteEvent>)
        requires
            old(self).wf(),
        ensures
            final(self).wf(),
            final(self)@ == (Client {
                origins: origins::drop_server_everywhere(old(self)@.origins, server),
                ..old(self)@
            }),
            peer::all_removals(r@),
            handler::apply_events(old(self)@.origins.dom(), r@) == final(self)@.origins.dom(),
            handler::all_news(old(self)@.origins.dom(), r@),
    {
        let removed = self.origins.remove_server(server);
        let mut events: Vec<RouteEvent> = Vec::new();
        for i in 0..removed.len()
            invariant
                events@.len() == i,
                forall|j: int|
                    0 <= j < i ==> #[trigger] events@[j] is Removed && events@[j].key()
                        == removed@[j],
        {
            let (vni, dest, hop) = removed[i];
            events.push(RouteEvent::Removed { vni, route: Route::new(dest, hop) });
        }
        proof {
            let known = old(self)@.origins.dom();
            assert forall|i: int| 0 <= i < events@.len() implies known.contains(
                (#[trigger] events@[i]).key(),
            ) by {
                assert(removed@.contains(removed@[i]));
            }
            peer::lemma_removals(known, events@);
            let left = handler::apply_events(known, events@);
            assert forall|key: (Vni, Destination, NextHop)|
                left.contains(key) == self@.origins.dom().contains(key) by {
                if origins::only_server(old(self)@.origins, key, server) {
                    assert(removed@.contains(key));
                    let j = removed@.index_of(key);
                    assert(events@[j].key() == key);
                } else {
                    assert forall|i: int| 0 <= i < events@.len() implies (
                    #[trigger] events@[i]).key() != key by {
                        assert(removed@.contains(removed@[i]));
                    }
                }
            }
            assert(left =~= self@.origins.dom());
        }
        events
    }

    /// Shuts down all connections: returns what is to be sent to which server.
    pub fn shutdown(&self) -> (r: Vec<(ServerId, PeerCommand)>)
        requires
            self.wf(),
        ensures
            r@ == commands_for(all_servers(self@.states.len()), PeerCommand::Shutdown),
    {
        command_all(self.states.len(), PeerCommand::Shutdown)
    }
}

// ----------------------------------------------------------------------------
// Laws
// ----------------------------------------------------------------------------

/// No more connections are established than there are; none only if no one is, all only if each
/// one is.
pub proof fn lemma_connected(states: Seq<ConnectionState>)
    ensures
        spec_connected(states) <= states.len(),
        spec_connected(states) > 0 <==> any_established(states),
        spec_connected(states) == states.len() <==> all_established(states),
    decreases states.len(),
{
    if states.len() > 0 {
        let fewer = states.drop_last();
        lemma_connected(fewer);
        if any_established(fewer) {
            let i = choose|i: int|
                0 <= i < fewer.len() && fewer[i] == ConnectionState::Established;
            assert(states[i] == ConnectionState::Established);
        }
        if any_established(states) && states.last() != ConnectionState::Established {
            let i = choose|i: int|
                0 <= i < states.len() && states[i] == ConnectionState::Established;
            assert(fewer[i] == ConnectionState::Established);
        }
        if all_established(fewer) && states.last() == ConnectionState::Established {
            assert forall|i: int| 0 <= i < states.len() implies states[i]
                == ConnectionState::Established by {
                if i < fewer.len() {
                    assert(fewer[i] == ConnectionState::Established);
                }
            }
        }
        if all_established(states) {
            assert forall|i: int| 0 <= i < fewer.len() implies fewer[i]
                == ConnectionState::Established by {
                assert(states[i] == ConnectionState::Established);
            }
            assert(states[states.len() - 1] == ConnectionState::Established);
        }
    }
}

/// What the states of a client mean: disconnected, no server is established or closed; closed, no
/// server is established and one is closed; fully connected, all of at least one server are
/// established; partially connected, one server is established and one is not.
pub proof fn lemma_client_state(states: Seq<ConnectionState>)
    ensures
        spec_client_state(states) is Disconnected <==> !any_established(states) && !any_closed(
            states,
        ),
        spec_client_state(states) is Closed <==> !any_established(states) && any_closed(states),
        spec_client_state(states) is FullyConnected <==> states.len() > 0 && all_established(
            states,
        ),
        spec_client_state(states) is PartiallyConnected <==> any_established(states)
            && !all_established(states),
{
    lemma_connected(states);
}

/// The servers that commands go to are those whose connections are established.
pub proof fn lemma_established_servers(states: Seq<ConnectionState>, i: int)
    requires
        0 <= i < states.len() <= usize::MAX,
    ensures
        established_servers(states).contains(ServerId(i as usize)) <==> states[i]
            == ConnectionState::Established,
    decreases states.len(),
{
    let fewer = states.drop_last();
    let last = ServerId((states.len() - 1) as usize);
    lemma_servers_below(fewer);
    crate::members::lemma_push_contains(
        established_servers(fewer),
        last,
        ServerId(i as usize),
    );
    if i < states.len() - 1 {
        lemma_established_servers(fewer, i);
    } else if established_servers(fewer).contains(last) {
        let j = established_servers(fewer).index_of(last);
        assert(established_servers(fewer)[j].0 < fewer.len());
    }
}

proof fn lemma_servers_below(states: Seq<ConnectionState>)
    requires
        states.len() <= usize::MAX,
    ensures
        forall|j: int|
            0 <= j < established_servers(states).len() ==> (#[trigger] established_servers(
                states,
            )[j]).0 < states.len(),
    decreases states.len(),
{
    if states.len() > 0 {
        let fewer = established_servers(states.drop_last());
        lemma_servers_below(states.drop_last());
        assert forall|j: int| 0 <= j < established_servers(states).len() implies (
        #[trigger] established_servers(states)[j]).0 < states.len() by {
            if j < fewer.len() {
                assert(established_servers(states)[j] == fewer[j]);
            }
        }
    }
}

/// What is said of some and of all connections is meant of every one: without connections, all are
/// closed and all are established, and none is.
pub proof fn lemma_some_and_all(states: Seq<ConnectionState>, i: int)
    requires
        0 <= i < states.len(),
    ensures
        states[i] == ConnectionState::Established ==> any_established(states),
        states[i] != ConnectionState::Established ==> !all_established(states),
        states[i] == ConnectionState::Closed ==> any_closed(states),
        states[i] != ConnectionState::Closed ==> !all_closed(states),
        !any_established(states) ==> states[i] != ConnectionState::Established,
        !any_closed(states) ==> states[i] != ConnectionState::Closed,
        any_established(states) <==> exists|j: int|
            0 <= j < states.len() && states[j] == ConnectionState::Established,
        any_closed(states) <==> exists|j: int|
            0 <= j < states.len() && states[j] == ConnectionState::Closed,
        all_established(states) <==> forall|j: int|
            0 <= j < states.len() ==> states[j] == ConnectionState::Established,
        all_closed(states) <==> forall|j: int|
            0 <= j < states.len() ==> states[j] == ConnectionState::Closed,
        all_established(Seq::empty()) && all_closed(Seq::empty()),
        !any_established(Seq::empty()) && !any_closed(Seq::empty()),
{
}

/// The number of established connections is the size of the set of their places.
pub proof fn lemma_connected_places(states: Seq<ConnectionState>)
    ensures
        Set::new(
            |i: int| 0 <= i < states.len() && states[i] == ConnectionState::Established,
        ).finite(),
        spec_connected(states) == Set::new(
            |i: int| 0 <= i < states.len() && states[i] == ConnectionState::Established,
        ).len(),
    decreases states.len(),
{
    let places = Set::new(
        |i: int| 0 <= i < states.len() && states[i] == ConnectionState::Established,
    );
    if states.len() == 0 {
        assert(places =~= Set::<int>::empty());
    } else {
        let fewer = states.drop_last();
        let n = fewer.len() as int;
        let earlier = Set::new(
            |i: int| 0 <= i < fewer.len() && fewer[i] == ConnectionState::Established,
        );
        lemma_connected_places(fewer);
        if states.last() == ConnectionState::Established {
            assert(places =~= earlier.insert(n));
        } else {
            assert(places =~= earlier);
        }
    }
}

/// What the combined state says of the connections, whichever they are: closed and disconnected,
/// that none is established and that one is closed or none is; fully connected, that there are
/// some and each is established; partially connected, how many are established, which is some but
/// not all, and how many there are.
pub proof fn lemma_state_counts(states: Seq<ConnectionState>)
    requires
        states.len() <= usize::MAX,
    ensures
        match spec_client_state(states) {
            ClientState::Closed => {
                &&& forall|i: int|
                    0 <= i < states.len() ==> states[i] != ConnectionState::Established
                &&& exists|i: int| 0 <= i < states.len() && states[i] == ConnectionState::Closed
            },
            ClientState::Disconnected => forall|i: int|
                0 <= i < states.len() ==> states[i] != ConnectionState::Established && states[i]
                    != ConnectionState::Closed,
            ClientState::FullyConnected => {
                &&& states.len() > 0
                &&& forall|i: int|
                    0 <= i < states.len() ==> states[i] == ConnectionState::Established
            },
            ClientState::PartiallyConnected { connected, total } => {
                &&& connected == Set::new(
                    |i: int| 0 <= i < states.len() && states[i] == ConnectionState::Established,
                ).len()
                &&& total == states.len()
                &&& 0 < connected < total
            },
        },
{
    lemma_connected(states);
    lemma_connected_places(states);
    lemma_client_state(states);
}

/// The commands for the established connections go to each of these and to no other server, each
/// once and in the order of the servers.
pub proof fn lemma_commands_established(
    states: Seq<ConnectionState>,
    command: PeerCommand,
    server: ServerId,
    sent: PeerCommand,
)
    requires
        states.len() <= usize::MAX,
    ensures
        commands_for(established_servers(states), command).contains((server, sent)) <==> sent
            == command && server.0 < states.len() && states[server.0 as int]
            == ConnectionState::Established,
        forall|i: int, j: int|
            0 <= i < j < commands_for(established_servers(states), command).len() ==> (
            #[trigger] commands_for(established_servers(states), command)[i]).0.0 < (
            #[trigger] commands_for(established_servers(states), command)[j]).0.0,
{
    let servers = established_servers(states);
    let commands = commands_for(servers, command);
    lemma_servers_below(states);
    lemma_servers_ordered(states);
    if commands.contains((server, sent)) {
        let i = commands.index_of((server, sent));
        assert(servers[i] == server && sent == command);
        lemma_established_servers(states, server.0 as int);
        assert(servers.contains(server));
    }
    if sent == command && server.0 < states.len() && states[server.0 as int]
        == ConnectionState::Established {
        lemma_established_servers(states, server.0 as int);
        let i = servers.index_of(server);
        assert(commands[i] == (server, sent));
    }
    assert forall|i: int, j: int| 0 <= i < j < commands.len() implies (#[trigger] commands[i]).0.0
        < (#[trigger] commands[j]).0.0 by {
        assert(commands[i].0 == servers[i] && commands[j].0 == servers[j]);
    }
}

proof fn lemma_servers_ordered(states: Seq<ConnectionState>)
    requires
        states.len() <= usize::MAX,
    ensures
        forall|i: int, j: int|
            0 <= i < j < established_servers(states).len() ==> (#[trigger] established_servers(
                states,
            )[i]).0 < (#[trigger] established_servers(states)[j]).0,
    decreases states.len(),
{
    if states.len() > 0 {
        let fewer = established_servers(states.drop_last());
        lemma_servers_ordered(states.drop_last());
        lemma_servers_below(states.drop_last());
        assert forall|i: int, j: int| 0 <= i < j < established_servers(states).len() implies (
        #[trigger] established_servers(states)[i]).0 < (
        #[trigger] established_servers(states)[j]).0 by {
            assert(established_servers(states)[i] == fewer[i]);
            if j < fewer.len() {
                assert(established_servers(states)[j] == fewer[j]);
            }
        }
    }
}

/// The commands for all servers go to each of them, each once and in order.
pub proof fn lemma_commands_all(
    count: nat,
    command: PeerCommand,
    server: ServerId,
    sent: PeerCommand,
)
    requires
        count <= usize::MAX,
    ensures
        commands_for(all_servers(count), command).contains((server, sent)) <==> sent == command
            && server.0 < count,
        commands_for(all_servers(count), command).len() == count,
        forall|i: int|
            0 <= i < count ==> (#[trigger] commands_for(all_servers(count), command)[i]).0.0 == i,
{
    let commands = commands_for(all_servers(count), command);
    if commands.contains((server, sent)) {
        let i = commands.index_of((server, sent));
        assert(commands[i] == (ServerId(i as usize), command));
    }
    if sent == command && server.0 < count {
        assert(commands[server.0 as int] == (server, sent));
    }
}

/// What a client knows of each server: a server announces exactly the routes that were received
/// from it.
pub open spec fn in_sync(
    origins: Map<(Vni, Destination, NextHop), Set<ServerId>>,
    received: Seq<Set<(Vni, Destination, NextHop)>>,
) -> bool {
    &&& origins::all_announced(origins)
    &&& forall|key: (Vni, Destination, NextHop), server: ServerId| #[trigger]
        origins::announced_by(origins, key, server) == (server.0 < received.len()
            && received[server.0 as int].contains(key))
}

/// A step of the connection to one server keeps a client in sync with all of them.
pub proof fn lemma_step_in_sync(
    origins: Map<(Vni, Destination, NextHop), Set<ServerId>>,
    received: Seq<Set<(Vni, Destination, NextHop)>>,
    server: ServerId,
    before: &PeerState,
    after: &PeerState,
    event: PeerEvent,
    subscriptions: Set<Vni>,
    announced: Set<(Vni, Destination, NextHop)>,
    reaction: PeerReaction,
)
    requires
        in_sync(origins, received),
        server.0 < received.len(),
        received[server.0 as int] == before.received_routes@,
        peer::stepped(before, after, event, subscriptions, announced, reaction),
    ensures
        in_sync(
            origins::track_events(origins, server, reaction.events@),
            received.update(server.0 as int, after.received_routes@),
        ),
{
    origins::lemma_tracks_server(origins, server, before.received_routes@, reaction.events@);
    let now = origins::track_events(origins, server, reaction.events@);
    let updated = received.update(server.0 as int, after.received_routes@);
    assert forall|key: (Vni, Destination, NextHop), other: ServerId| #[trigger]
        origins::announced_by(now, key, other) == (other.0 < updated.len()
            && updated[other.0 as int].contains(key)) by {
        if other != server {
            assert(origins::announced_by(now, key, other) == origins::announced_by(
                origins,
                key,
                other,
            ));
        }
    }
}

/// A client that is in sync knows exactly the routes that it received from some server.
pub proof fn lemma_in_sync_knows(
    origins: Map<(Vni, Destination, NextHop), Set<ServerId>>,
    received: Seq<Set<(Vni, Destination, NextHop)>>,
    key: (Vni, Destination, NextHop),
)
    requires
        in_sync(origins, received),
        received.len() <= usize::MAX,
    ensures
        origins.contains_key(key) <==> exists|i: int|
            0 <= i < received.len() && (#[trigger] received[i]).contains(key),
{
    origins::lemma_known_while_announced(origins, key);
    if origins.contains_key(key) {
        let server = choose|server: ServerId| #[trigger]
            origins::announced_by(origins, key, server);
        assert(received[server.0 as int].contains(key));
    }
    if exists|i: int| 0 <= i < received.len() && (#[trigger] received[i]).contains(key) {
        let i = choose|i: int| 0 <= i < received.len() && (#[trigger] received[i]).contains(key);
        assert(origins::announced_by(origins, key, ServerId(i as usize)));
    }
}

/// Withdrawing a route that was announced undoes the announcement.
pub proof fn lemma_withdraw_undoes_announce(
    announced: Set<(Vni, Destination, NextHop)>,
    key: (Vni, Destination, NextHop),
)
    requires
        !announced.contains(key),
    ensures
        announced.insert(key).remove(key) == announced,
{
    assert(announced.insert(key).remove(key) =~= announced);
}

} // verus!
