//! Multi-server client state for high availability.
//!
//! A client that connects to multiple MetalBond servers simultaneously for high availability and
//! ECMP (Equal-Cost Multi-Path) support:
//!
//! - **Active-Active**: Connects to all configured servers simultaneously
//! - **ECMP**: Different next-hops from different servers are combined
//! - **Route Origin Tracking**: Routes are only removed when ALL servers withdraw them
//! - **Automatic Deduplication**: Duplicate routes from multiple servers trigger only one handler
//!   call

use vstd::prelude::*;

use crate::client::{self, Client, ClientState, MetalBondClient};
use crate::error::Error;
use crate::handler::{self, RouteEvent};
use crate::origins;
use crate::peer::{self, PeerCommand, PeerEvent, PeerReaction, PeerState};
use crate::route::{self, Route};
use crate::types::{Action, ConnectionState, Destination, NextHop, Vni};
use crate::wire::Message;

pub use crate::origins::{RouteOriginTracker, ServerId};

verus! {

/// Combined connection state for multi-server client.
#[derive(Debug, Clone, Copy, PartialEq, Eq, Structural)]
pub enum MultiServerState {
    /// No servers connected.
    Disconnected,
    /// At least one server connected, but not all.
    PartiallyConnected {
        /// Number of servers currently connected.
        connected: usize,
        /// Total number of configured servers.
        total: usize,
    },
    /// All servers connected.
    FullyConnected,
    /// Client has been shut down.
    Closed,
}

/// The combined state of some connections.
pub open spec fn spec_multi_server_state(states: Seq<ConnectionState>) -> MultiServerState {
    match client::spec_client_state(states) {
        ClientState::Disconnected => MultiServerState::Disconnected,
        ClientState::PartiallyConnected {
            connected,
            total,
        } => MultiServerState::PartiallyConnected { connected, total },
        ClientState::FullyConnected => MultiServerState::FullyConnected,
        ClientState::Closed => MultiServerState::Closed,
    }
}

/// What the combined state says of the connections, whichever they are: closed and disconnected,
/// that none is established and that one is closed or none is; fully connected, that there are
/// some and each is established; partially connected, how many are established, which is some but
/// not all, and how many there are.
pub proof fn lemma_state_counts(states: Seq<ConnectionState>)
    requires
        states.len() <= usize::MAX,
    ensures
        match spec_multi_server_state(states) {
            MultiServerState::Closed => {
                &&& forall|i: int|
                    0 <= i < states.len() ==> states[i] != ConnectionState::Established
                &&& exists|i: int| 0 <= i < states.len() && states[i] == ConnectionState::Closed
            },
            MultiServerState::Disconnected => forall|i: int|
                0 <= i < states.len() ==> states[i] != ConnectionState::Established && states[i]
                    != ConnectionState::Closed,
            MultiServerState::FullyConnected => {
                &&& states.len() > 0
                &&& forall|i: int|
                    0 <= i < states.len() ==> states[i] == ConnectionState::Established
            },
            MultiServerState::PartiallyConnected { connected, total } => {
                &&& connected == Set::new(
                    |i: int| 0 <= i < states.len() && states[i] == ConnectionState::Established,
                ).len()
                &&& total == states.len()
                &&& 0 < connected < total
            },
        },
{
    client::lemma_state_counts(states);
}

/// State of a MetalBond client that connects to multiple servers simultaneously.
///
/// This provides high availability and ECMP support by:
/// - Connecting to all configured servers at once
/// - Combining routes from all servers (different next-hops = ECMP)
/// - Deduplicating identical routes from multiple servers
/// - Only removing routes when ALL servers have withdrawn them
#[derive(Debug)]
pub struct MultiServerClient {
    client: MetalBondClient,
}

impl View for MultiServerClient {
    type V = Client;

    closed spec fn view(&self) -> Client {
        self.client@
    }
}

impl MultiServerClient {
    /// There is one connection for each server, and what is stored is consistent.
    pub closed spec fn wf(&self) -> bool {
        self.client.wf()
    }

    /// There is one connection for each server, every received route has a server, and what is
    /// stored is finite.
    pub proof fn lemma_consistent(&self)
        requires
            self.wf(),
        ensures
            self@.addrs.len() == self@.states.len(),
            origins::all_announced(self@.origins),
            self@.origins.dom().finite(),
            self@.subscriptions.finite(),
            self@.announced.finite(),
    {
        self.client.lemma_consistent();
    }

    /// Creates the state of a client for the specified servers, which are about to be connected
    /// to. There may be none.
    pub fn connect(servers: &[&str]) -> (r: Self)
        ensures
            r.wf(),
            r@.addrs.len() == servers@.len(),
            forall|i: int| 0 <= i < servers@.len() ==> #[trigger] r@.addrs[i] == servers@[i]@,
            r@.states == Seq::new(servers@.len(), |i: int| ConnectionState::Connecting),
            r@.origins == Map::<(Vni, Destination, NextHop), Set<ServerId>>::empty(),
            r@.subscriptions == Set::<Vni>::empty(),
            r@.announced == Set::<(Vni, Destination, NextHop)>::empty(),
    {
        Self { client: MetalBondClient::with_servers(servers) }
    }

    /// Takes in the state of the connection to a server.
    pub fn set_server_state(&mut self, server: ServerId, state: ConnectionState)
        requires
            old(self).wf(),
            server.0 < old(self)@.states.len(),
        ensures
            final(self).wf(),
            final(self)@ == (Client {
                states: old(self)@.states.update(server.0 as int, state),
                ..old(self)@
            }),
    {
        self.client.set_server_state(server, state);
    }

    /// Returns the current combined connection state.
    pub fn state(&self) -> (r: MultiServerState)
        requires
            self.wf(),
        ensures
            r == spec_multi_server_state(self@.states),
    {
        match self.client.state() {
            ClientState::Disconnected => MultiServerState::Disconnected,
            ClientState::PartiallyConnected {
                connected,
                total,
            } => MultiServerState::PartiallyConnected { connected, total },
            ClientState::FullyConnected => MultiServerState::FullyConnected,
            ClientState::Closed => MultiServerState::Closed,
        }
    }

    /// What a wait for at least one server has come to: success once one is established, an
    /// error once all are closed, nothing yet otherwise.
    pub fn any_established_outcome(&self) -> (r: Option<Result<(), Error>>)
        requires
            self.wf(),
        ensures
            match r {
                Some(Ok(())) => client::any_established(self@.states),
                Some(Err(e)) => e is Closed && client::all_closed(self@.states),
                None => !client::any_established(self@.states) && !client::all_closed(
                    self@.states,
                ),
            },
    {
        self.client.any_established_outcome()
    }

    /// What a wait for all servers has come to: success once all are established, an error once
    /// one is closed, nothing yet otherwise.
    pub fn all_established_outcome(&self) -> (r: Option<Result<(), Error>>)
        requires
            self.wf(),
        ensures
            match r {
                Some(Ok(())) => client::all_established(self@.states),
                Some(Err(e)) => e is Closed && client::any_closed(self@.states),
                None => !client::all_established(self@.states) && !client::any_closed(
                    self@.states,
                ),
            },
    {
        self.client.all_established_outcome()
    }

    /// Subscribes to a VNI on all connected servers: returns what is to be sent to which.
    ///
    /// The subscription is tracked locally and will be re-sent to servers that reconnect later.
    pub fn subscribe(&mut self, vni: Vni) -> (r: Vec<(ServerId, PeerCommand)>)
        requires
            old(self).wf(),
        ensures
            final(self).wf(),
            final(self)@ == (Client {
                subscriptions: old(self)@.subscriptions.insert(vni),
                ..old(self)@
            }),
            r@ == client::commands_for(
                client::established_servers(old(self)@.states),
                PeerCommand::Subscribe(vni),
            ),
    {
        self.client.subscribe(vni)
    }

    /// Unsubscribes from a VNI on all servers: returns what is to be sent to which.
    pub fn unsubscribe(&mut self, vni: Vni) -> (r: Vec<(ServerId, PeerCommand)>)
        requires
            old(self).wf(),
        ensures
            final(self).wf(),
            final(self)@ == (Client {
                subscriptions: old(self)@.subscriptions.remove(vni),
                ..old(self)@
            }),
            r@ == client::commands_for(
                client::all_servers(old(self)@.states.len()),
                PeerCommand::Unsubscribe(vni),
            ),
    {
        self.client.unsubscribe(vni)
    }

    /// Announces a route to all connected servers: returns what is to be sent to which.
    ///
    /// The route is tracked locally and will be re-announced to servers that reconnect later.
    pub fn announce(&mut self, vni: Vni, destination: Destination, next_hop: NextHop) -> (r: Result<
        Vec<(ServerId, PeerCommand)>,
        Error,
    >)
        requires
            old(self).wf(),
        ensures
            final(self).wf(),
            old(self)@.announced.contains((vni, destination, next_hop)) ==> {
                &&& r matches Err(Error::RouteAlreadyAnnounced)
                &&& final(self)@ == old(self)@
            },
            !old(self)@.announced.contains((vni, destination, next_hop)) ==> {
                &&& r matches Ok(commands) && commands@ == client::commands_for(
                    client::established_servers(old(self)@.states),
                    PeerCommand::SendUpdate(
                        Message::Update { action: Action::Add, vni, destination, next_hop },
                    ),
                )
                &&& final(self)@ == (Client {
                    announced: old(self)@.announced.insert((vni, destination, next_hop)),
                    ..old(self)@
                })
            },
    {
        self.client.announce(vni, destination, next_hop)
    }

    /// Withdraws a route from all servers: returns what is to be sent to which.
    pub fn withdraw(&mut self, vni: Vni, destination: Destination, next_hop: NextHop) -> (r: Result<
        Vec<(ServerId, PeerCommand)>,
        Error,
    >)
        requires
            old(self).wf(),
        ensures
            final(self).wf(),
            !old(self)@.announced.contains((vni, destination, next_hop)) ==> {
                &&& r matches Err(Error::RouteNotFound)
                &&& final(self)@ == old(self)@
            },
            old(self)@.announced.contains((vni, destination, next_hop)) ==> {
                &&& r matches Ok(commands) && commands@ == client::commands_for(
                    client::all_servers(old(self)@.states.len()),
                    PeerCommand::SendUpdate(
                        Message::Update { action: Action::Remove, vni, destination, next_hop },
                    ),
                )
                &&& final(self)@ == (Client {
                    announced: old(self)@.announced.remove((vni, destination, next_hop)),
                    ..old(self)@
                })
            },
    {
        self.client.withdraw(vni, destination, next_hop)
    }

    /// What a server is told when the connection to it is established.
    pub fn resync(&self) -> (r: Vec<Message>)
        requires
            self.wf(),
        ensures
            peer::resyncs(r@, self@.subscriptions, self@.announced),
    {
        self.client.resync()
    }

    /// Takes in what happened to the connection to a server, and returns what is to be done on
    /// the connection and what the user is to be told.
    pub fn step(&mut self, server: ServerId, peer: &mut PeerState, event: PeerEvent) -> (r: (
        PeerReaction,
        Vec<RouteEvent>,
    ))
        requires
            old(self).wf(),
            server.0 < old(self)@.states.len(),
            old(peer).wf(),
            old(peer).expects(event),
        ensures
            final(self).wf(),
            final(peer).wf(),
            peer::stepped(
                old(peer),
                final(peer),
                event,
                old(self)@.subscriptions,
                old(self)@.announced,
                r.0,
            ),
            final(self)@ == (Client {
                states: old(self)@.states.update(server.0 as int, final(peer).state),
                origins: origins::track_events(old(self)@.origins, server, r.0.events@),
                ..old(self)@
            }),
            r.1@ == origins::passed_events(old(self)@.origins, server, r.0.events@),
    {
        self.client.step(server, peer, event)
    }

    /// Takes in what one server told about routes, and returns what the user is to be told.
    pub fn routes_changed(&mut self, server: ServerId, events: &Vec<RouteEvent>) -> (r: Vec<
        RouteEvent,
    >)
        requires
            old(self).wf(),
        ensures
            final(self).wf(),
            final(self)@ == (Client {
                origins: origins::track_events(old(self)@.origins, server, events@),
                ..old(self)@
            }),
            r@ == origins::passed_events(old(self)@.origins, server, events@),
    {
        self.client.routes_changed(server, events)
    }

    /// Returns per-server connection states.
    pub fn server_states(&self) -> (r: Vec<(ServerId, ConnectionState)>)
        requires
            self.wf(),
        ensures
            r@.len() == self@.states.len(),
            forall|i: int|
                0 <= i < r@.len() ==> #[trigger] r@[i] == (ServerId(i as usize), self@.states[i]),
    {
        self.client.server_states()
    }

    /// Returns the number of configured servers.
    pub fn server_count(&self) -> (r: usize)
        requires
            self.wf(),
        ensures
            r == self@.states.len(),
    {
        self.client.server_count()
    }

    /// Returns the number of currently connected servers.
    pub fn connected_count(&self) -> (r: usize)
        requires
            self.wf(),
        ensures
            r == client::spec_connected(self@.states),
    {
        self.client.connected_count()
    }

    /// Returns all received routes for a VNI (deduplicated across servers).
    pub fn get_received_routes(&self, vni: Vni) -> (r: Vec<Route>)
        requires
            self.wf(),
        ensures
            r@.no_duplicates(),
            r@.to_set() == route::routes_of(self@.origins.dom(), vni),
    {
        self.client.get_received_routes(vni)
    }

    /// Returns the number of unique routes tracked across all servers.
    pub fn route_count(&self) -> (r: usize)
        requires
            self.wf(),
        ensures
            r == self@.origins.dom().len(),
    {
        self.client.route_count()
    }

    /// Returns the address for a server ID.
    pub fn server_addr(&self, id: ServerId) -> (r: Option<&str>)
        requires
            self.wf(),
        ensures
            match r {
                Some(addr) => id.0 < self@.addrs.len() && addr@ == self@.addrs[id.0 as int],
                None => id.0 >= self@.addrs.len(),
            },
    {
        self.client.server_addr(id)
    }

    /// Returns true if no routes are being tracked.
    pub fn is_route_table_empty(&self) -> (r: bool)
        requires
            self.wf(),
        ensures
            r == (self@.origins.dom() == Set::<(Vni, Destination, NextHop)>::empty()),
    {
        self.client.is_route_table_empty()
    }

    /// Returns which servers announced a specific route.
    ///
    /// Useful for debugging and understanding route distribution.
    pub fn get_route_servers(&self, vni: Vni, dest: &Destination, hop: &NextHop) -> (r: Option<
        Vec<ServerId>,
    >)
        requires
            self.wf(),
        ensures
            match r {
                Some(servers) => {
                    &&& self@.origins.contains_key((vni, *dest, *hop))
                    &&& servers@.no_duplicates()
                    &&& servers@.to_set() == self@.origins[(vni, *dest, *hop)]
                },
                None => !self@.origins.contains_key((vni, *dest, *hop)),
            },
    {
        self.client.get_route_servers(vni, dest, hop)
    }

    /// Removes all routes from a specific server, and returns what the user is to be told: the
    /// removal of the routes that no other server announced.
    ///
    /// Call this when you detect a server has permanently disconnected to clean up routes that
    /// were only announced by that server. Routes announced by other servers will remain.
    pub fn remove_server_routes(&mut self, server: ServerId) -> (r: Vec<RouteEvent>)
        requires
            old(self).wf(),
        ensures
            final(self).wf(),
            final(self)@ == (Client {
                origins: origins::drop_server_everywhere(old(self)@.origins, server),
                ..old(self)@
            }),
            peer::all_removals(r@),
            handler::apply_events(old(self)@.origins.dom(), r@) == final(self)@.origins.dom(),
            handler::all_news(old(self)@.origins.dom(), r@),
    {
        self.client.remove_server_routes(server)
    }

    /// Shuts down all connections: returns what is to be sent to which server.
    pub fn shutdown(&self) -> (r: Vec<(ServerId, PeerCommand)>)
        requires
            self.wf(),
        ensures
            r@ == client::commands_for(
                client::all_servers(self@.states.len()),
                PeerCommand::Shutdown,
            ),
    {
        self.client.shutdown()
    }
}

} // verus!
