//! Connection of a client to a MetalBond server.
//!
//! What happens on a connection is decided here, the sending and receiving is left to the
//! caller:
//! - Connection establishment and reconnection
//! - State machine (CONNECTING -> HELLO_SENT -> HELLO_RECEIVED -> ESTABLISHED)
//! - Keepalive handling
//! - Messages that are to be sent, and what received ones mean

use vstd::prelude::*;

use crate::error::Error;
use crate::handler::{self, RouteEvent};
use crate::handshake;
use crate::ip::SocketAddr;
use crate::members::Members;
use crate::route::{self, Route, RouteTable};
use crate::server::{self, PeerRequest, Routing, RoutingReply};
use crate::stream;
use crate::types::{Action, ConnectionState, Destination, NextHop, Vni};
use crate::wire::Message;

verus! {

/// Retry interval range (seconds).
pub const RETRY_INTERVAL_MIN: u64 = 5;

/// Retry interval range (seconds).
pub const RETRY_INTERVAL_MAX: u64 = 10;

/// Commands that can be sent to a peer.
#[derive(Debug, Clone, Copy, PartialEq, Eq, Structural)]
pub enum PeerCommand {
    /// Subscribe to a VNI.
    Subscribe(Vni),
    /// Unsubscribe from a VNI.
    Unsubscribe(Vni),
    /// Send a route update.
    SendUpdate(Message),
    /// Shutdown the peer.
    Shutdown,
}

impl PeerCommand {
    pub open spec fn spec_message(self) -> Option<Message> {
        match self {
            PeerCommand::Subscribe(vni) => Some(Message::Subscribe { vni }),
            PeerCommand::Unsubscribe(vni) => Some(Message::Unsubscribe { vni }),
            PeerCommand::SendUpdate(message) => Some(message),
            PeerCommand::Shutdown => None,
        }
    }

    /// The message that a command has the server told.
    pub fn message(&self) -> (r: Option<Message>)
        ensures
            r == self.spec_message(),
    {
        match *self {
            PeerCommand::Subscribe(vni) => Some(Message::Subscribe { vni }),
            PeerCommand::Unsubscribe(vni) => Some(Message::Unsubscribe { vni }),
            PeerCommand::SendUpdate(message) => Some(message),
            PeerCommand::Shutdown => None,
        }
    }
}

/// What follows from bytes that were received.
#[derive(Debug)]
pub enum PeerStep {
    /// The connection goes on.
    Continue,
    /// The server closed the connection.
    Closed,
    /// The connection cannot go on.
    Failed(Error),
}

/// State of the connection to one server.
#[derive(Debug)]
pub struct PeerState {
    /// Current connection state.
    pub state: ConnectionState,
    /// Routes received from the server.
    pub received_routes: RouteTable,
    /// Bytes that were received and make no message yet.
    pub msg_buf: Vec<u8>,
    /// Keepalive interval in seconds that was agreed on.
    pub keepalive_interval: u32,
}

// ----------------------------------------------------------------------------
// What messages mean
// ----------------------------------------------------------------------------

/// What a message tells about a route, if that is new.
pub open spec fn message_event(
    received: Set<(Vni, Destination, NextHop)>,
    message: Message,
) -> Option<RouteEvent> {
    match message {
        Message::Update { action, vni, destination, next_hop } => {
            let known = received.contains((vni, destination, next_hop));
            let route = Route { destination, next_hop };
            match action {
                Action::Add => if known {
                    None
                } else {
                    Some(RouteEvent::Added { vni, route })
                },
                Action::Remove => if known {
                    Some(RouteEvent::Removed { vni, route })
                } else {
                    None
                },
            }
        },
        _ => None,
    }
}

/// The routes that are known after a message.
pub open spec fn received_after(
    received: Set<(Vni, Destination, NextHop)>,
    message: Message,
) -> Set<(Vni, Destination, NextHop)> {
    match message {
        Message::Update { action: Action::Add, vni, destination, next_hop } => received.insert(
            (vni, destination, next_hop),
        ),
        Message::Update { action: Action::Remove, vni, destination, next_hop } => received.remove(
            (vni, destination, next_hop),
        ),
        _ => received,
    }
}

/// The routes that are known after some messages.
pub open spec fn received_after_all(
    received: Set<(Vni, Destination, NextHop)>,
    messages: Seq<Message>,
) -> Set<(Vni, Destination, NextHop)>
    decreases messages.len(),
{
    if messages.len() == 0 {
        received
    } else {
        received_after(received_after_all(received, messages.drop_last()), messages.last())
    }
}

/// What some messages tell about routes.
pub open spec fn message_events(
    received: Set<(Vni, Destination, NextHop)>,
    messages: Seq<Message>,
) -> Seq<RouteEvent>
    decreases messages.len(),
{
    if messages.len() == 0 {
        Seq::empty()
    } else {
        let events = message_events(received, messages.drop_last());
        match message_event(received_after_all(received, messages.drop_last()), messages.last()) {
            Some(event) => events.push(event),
            None => events,
        }
    }
}

/// All calls are removals.
pub open spec fn all_removals(events: Seq<RouteEvent>) -> bool {
    forall|i: int| 0 <= i < events.len() ==> #[trigger] events[i] is Removed
}

impl PeerState {
    /// The received routes are consistent.
    pub open spec fn wf(&self) -> bool {
        self.received_routes.wf()
    }

    /// Creates the state of a connection that is about to be opened.
    pub fn new() -> (r: Self)
        ensures
            r.wf(),
            r.state == ConnectionState::Connecting,
            r.received_routes@ == Set::<(Vni, Destination, NextHop)>::empty(),
            r.msg_buf@ == Seq::<u8>::empty(),
            r.keepalive_interval == handshake::DEFAULT_KEEPALIVE_INTERVAL,
    {
        Self {
            state: ConnectionState::Connecting,
            received_routes: RouteTable::new(),
            msg_buf: Vec::new(),
            keepalive_interval: handshake::DEFAULT_KEEPALIVE_INTERVAL,
        }
    }

    /// Only the state of the connection differs.
    pub open spec fn same_but_state(&self, other: &PeerState) -> bool {
        &&& self.wf()
        &&& self.received_routes@ == other.received_routes@
        &&& self.msg_buf@ == other.msg_buf@
        &&& self.keepalive_interval == other.keepalive_interval
    }

    /// A connection is being opened.
    pub fn connecting(&mut self)
        requires
            old(self).wf(),
            old(self).state == ConnectionState::Connecting || old(self).state
                == ConnectionState::Retry,
        ensures
            final(self).same_but_state(old(self)),
            final(self).state == ConnectionState::Connecting,
            may_follow(old(self).state, final(self).state),
    {
        self.state = ConnectionState::Connecting;
    }

    /// The connection could not be opened.
    pub fn connect_failed(&mut self)
        requires
            old(self).wf(),
            old(self).state == ConnectionState::Connecting,
        ensures
            final(self).same_but_state(old(self)),
            final(self).state == ConnectionState::Retry,
            may_follow(old(self).state, final(self).state),
    {
        self.state = ConnectionState::Retry;
    }

    /// The first message on a connection.
    pub fn hello() -> (r: Message)
        ensures
            r == (Message::Hello {
                keepalive_interval: handshake::DEFAULT_KEEPALIVE_INTERVAL,
                is_server: false,
            }),
    {
        Message::Hello {
            keepalive_interval: handshake::DEFAULT_KEEPALIVE_INTERVAL,
            is_server: false,
        }
    }

    /// The first message was sent.
    pub fn hello_sent(&mut self)
        requires
            old(self).wf(),
            old(self).state == ConnectionState::Connecting,
        ensures
            final(self).same_but_state(old(self)),
            final(self).state == ConnectionState::HelloSent,
            may_follow(old(self).state, final(self).state),
    {
        self.state = ConnectionState::HelloSent;
    }

    /// Takes in the first bytes from the server: its HELLO. The smaller of the two keepalive
    /// intervals is agreed on.
    pub fn receive_hello(&mut self, data: &[u8]) -> (r: Result<(), Error>)
        requires
            old(self).wf(),
            old(self).state == ConnectionState::HelloSent,
        ensures
            final(self).wf(),
            final(self).received_routes@ == old(self).received_routes@,
            final(self).msg_buf@ == old(self).msg_buf@,
            may_follow(old(self).state, final(self).state),
            match handshake::spec_read_hello(data@) {
                Ok(Some((interval, _))) => {
                    &&& r is Ok
                    &&& final(self).state == ConnectionState::HelloReceived
                    &&& final(self).keepalive_interval == handshake::spec_negotiate(
                        handshake::DEFAULT_KEEPALIVE_INTERVAL,
                        interval,
                    )
                },
                Ok(None) => {
                    &&& r matches Err(e) && e.is_protocol("expected HELLO response"@)
                    &&& final(self).same_but_state(old(self))
                    &&& final(self).state == old(self).state
                },
                Err(failure) => {
                    &&& r matches Err(e) && e.reports(failure)
                    &&& final(self).same_but_state(old(self))
                    &&& final(self).state == old(self).state
                },
            },
    {
        match handshake::read_hello(data) {
            Ok(Some((interval, _))) => {
                self.state = ConnectionState::HelloReceived;
                self.keepalive_interval = handshake::negotiate(
                    handshake::DEFAULT_KEEPALIVE_INTERVAL,
                    interval,
                );
                Ok(())
            },
            Ok(None) => Err(Error::protocol("expected HELLO response")),
            Err(e) => Err(e),
        }
    }

    /// Takes in the next bytes from the server: its KEEPALIVE, which establishes the connection.
    pub fn receive_keepalive(&mut self, data: &[u8]) -> (r: Result<(), Error>)
        requires
            old(self).wf(),
            old(self).state == ConnectionState::HelloReceived,
        ensures
            final(self).wf(),
            final(self).received_routes@ == old(self).received_routes@,
            final(self).keepalive_interval == old(self).keepalive_interval,
            may_follow(old(self).state, final(self).state),
            r is Ok <==> data@.len() > 0 && (Message::spec_decode(data@) matches Ok((m, _)) && m
                == Message::Keepalive),
            r is Ok ==> final(self).state == ConnectionState::Established && final(self).msg_buf@
                == Seq::<u8>::empty(),
            r is Err ==> final(self).state == old(self).state && final(self).msg_buf@ == old(self).msg_buf@,
            data@.len() == 0 ==> r matches Err(Error::Closed),
            data@.len() > 0 ==> match Message::spec_decode(data@) {
                Ok((m, _)) => m != Message::Keepalive ==> (r matches Err(e) && e.is_protocol(
                    "expected KEEPALIVE response"@,
                )),
                Err(failure) => r matches Err(e) && e.reports(failure),
            },
    {
        match handshake::read_message(data) {
            Ok(Message::Keepalive) => {
                self.state = ConnectionState::Established;
                self.msg_buf = Vec::new();
                Ok(())
            },
            Ok(_) => Err(Error::protocol("expected KEEPALIVE response")),
            Err(e) => Err(e),
        }
    }

    /// What is due when the keepalive timer ticks: a KEEPALIVE, unless the server has been silent
    /// for too long.
    pub fn tick(&self, silent_nanos: u128) -> (r: Result<Message, Error>)
        ensures
            silent_nanos > handshake::spec_timeout_nanos(self.keepalive_interval)
                ==> r matches Err(Error::Timeout),
            silent_nanos <= handshake::spec_timeout_nanos(self.keepalive_interval) ==> r
                == Ok::<Message, Error>(Message::Keepalive),
    {
        if handshake::is_timed_out(self.keepalive_interval, silent_nanos) {
            Err(Error::Timeout)
        } else {
            Ok(Message::Keepalive)
        }
    }

    /// Handles a message from the server, and returns what it tells about a route, if that is
    /// new.
    pub fn handle_message(&mut self, message: Message) -> (r: Option<RouteEvent>)
        requires
            old(self).wf(),
        ensures
            final(self).wf(),
            final(self).state == old(self).state,
            final(self).msg_buf@ == old(self).msg_buf@,
            final(self).keepalive_interval == old(self).keepalive_interval,
            final(self).received_routes@ == received_after(old(self).received_routes@, message),
            r == message_event(old(self).received_routes@, message),
    {
        match message {
            Message::Update { action, vni, destination, next_hop } => {
                let route = Route::new(destination, next_hop);
                match action {
                    Action::Add => if self.received_routes.add_next_hop(
                        vni,
                        destination,
                        next_hop,
                    ) {
                        Some(RouteEvent::Added { vni, route })
                    } else {
                        None
                    },
                    Action::Remove => {
                        let (removed, _) = self.received_routes.remove_next_hop(
                            vni,
                            &destination,
                            &next_hop,
                        );
                        if removed {
                            Some(RouteEvent::Removed { vni, route })
                        } else {
                            None
                        }
                    },
                }
            },
            _ => None,
        }
    }

    /// Takes in bytes from the server: handles every message that is complete and keeps the bytes
    /// behind them. No bytes mean that the server closed the connection.
    pub fn receive(&mut self, data: &[u8]) -> (r: (Vec<RouteEvent>, PeerStep))
        requires
            old(self).wf(),
        ensures
            final(self).wf(),
            final(self).state == old(self).state,
            final(self).keepalive_interval == old(self).keepalive_interval,
            data@.len() == 0 ==> {
                &&& r.0@ == Seq::<RouteEvent>::empty()
                &&& r.1 is Closed
                &&& final(self).msg_buf@ == old(self).msg_buf@
                &&& final(self).received_routes@ == old(self).received_routes@
            },
            data@.len() > 0 ==> {
                let reading = stream::read_messages(old(self).msg_buf@ + data@);
                &&& final(self).msg_buf@ == reading.rest
                &&& final(self).received_routes@ == received_after_all(
                    old(self).received_routes@,
                    reading.messages,
                )
                &&& r.0@ == message_events(old(self).received_routes@, reading.messages)
                &&& match reading.failure {
                    Some(failure) => r.1 matches PeerStep::Failed(e) && e.reports(failure),
                    None => r.1 is Continue,
                }
            },
    {
        let mut events: Vec<RouteEvent> = Vec::new();
        if data.len() == 0 {
            return (events, PeerStep::Closed);
        }
        let (messages, error) = stream::receive(&mut self.msg_buf, data);
        let ghost rest = self.msg_buf@;
        for i in 0..messages.len()
            invariant
                self.wf(),
                self.state == old(self).state,
                self.keepalive_interval == old(self).keepalive_interval,
                self.msg_buf@ == rest,
                self.received_routes@ == received_after_all(
                    old(self).received_routes@,
                    messages@.take(i as int),
                ),
                events@ == message_events(old(self).received_routes@, messages@.take(i as int)),
        {
            assert(messages@.take(i + 1).drop_last() =~= messages@.take(i as int));
            if let Some(event) = self.handle_message(messages[i]) {
                events.push(event);
            }
        }
        assert(messages@.take(messages@.len() as int) =~= messages@);
        match error {
            Some(e) => (events, PeerStep::Failed(e)),
            None => (events, PeerStep::Continue),
        }
    }

    /// Takes in that the message of a command was sent. When a subscription ends, the routes of
    /// its VNI go. A shutdown, which has no message, closes the connection.
    pub fn command_done(&mut self, command: PeerCommand) -> (r: Vec<RouteEvent>)
        requires
            old(self).wf(),
            old(self).state == ConnectionState::Established,
        ensures
            final(self).wf(),
            final(self).msg_buf@ == old(self).msg_buf@,
            final(self).keepalive_interval == old(self).keepalive_interval,
            final(self).state == if command == PeerCommand::Shutdown {
                ConnectionState::Closed
            } else {
                old(self).state
            },
            may_follow(old(self).state, final(self).state),
            match command {
                PeerCommand::Unsubscribe(vni) => {
                    &&& final(self).received_routes@ == route::without_vni(
                        old(self).received_routes@,
                        vni,
                    )
                    &&& all_removals(r@)
                },
                _ => {
                    &&& final(self).received_routes@ == old(self).received_routes@
                    &&& r@ == Seq::<RouteEvent>::empty()
                },
            },
            handler::apply_events(old(self).received_routes@, r@) == final(self).received_routes@,
            handler::all_news(old(self).received_routes@, r@),
    {
        match command {
            PeerCommand::Unsubscribe(vni) => {
                let routes = self.received_routes.remove_vni(vni);
                let mut events: Vec<RouteEvent> = Vec::new();
                for i in 0..routes.len()
                    invariant
                        events@.len() == i,
                        forall|j: int|
                            0 <= j < i ==> #[trigger] events@[j] == (RouteEvent::Removed {
                                vni,
                                route: routes@[j],
                            }),
                {
                    events.push(RouteEvent::Removed { vni, route: routes[i] });
                }
                proof {
                    let known = old(self).received_routes@;
                    assert forall|i: int| 0 <= i < events@.len() implies known.contains(
                        (#[trigger] events@[i]).key(),
                    ) by {
                        assert(routes@.to_set().contains(routes@[i]));
                    }
                    assert forall|i: int, j: int| 0 <= i < j < events@.len() implies (
                    #[trigger] events@[i]).key() != (#[trigger] events@[j]).key() by {
                        assert(routes@[i] != routes@[j]);
                    }
                    lemma_removals(known, events@);
                    let left = handler::apply_events(known, events@);
                    assert forall|e: (Vni, Destination, NextHop)|
                        left.contains(e) == route::without_vni(known, vni).contains(e) by {
                        let route = Route { destination: e.1, next_hop: e.2 };
                        assert(routes@.to_set().contains(route) == route::routes_of(
                            known,
                            vni,
                        ).contains(route));
                        if known.contains(e) && e.0 == vni {
                            let j = routes@.index_of(route);
                            assert(events@[j].key() == e);
                        }
                    }
                    assert(left =~= route::without_vni(known, vni));
                }
                events
            },
            PeerCommand::Shutdown => {
                self.state = ConnectionState::Closed;
                Vec::new()
            },
            _ => Vec::new(),
        }
    }

    /// The connection is over. Unless that was asked for, all received routes go, and a new
    /// connection will be opened.
    pub fn connection_lost(&mut self) -> (r: Vec<RouteEvent>)
        requires
            old(self).wf(),
        ensures
            final(self).wf(),
            final(self).keepalive_interval == old(self).keepalive_interval,
            may_follow(old(self).state, final(self).state),
            old(self).state == ConnectionState::Closed ==> {
                &&& final(self).state == ConnectionState::Closed
                &&& final(self).msg_buf@ == old(self).msg_buf@
                &&& final(self).received_routes@ == old(self).received_routes@
                &&& r@ == Seq::<RouteEvent>::empty()
            },
            old(self).state != ConnectionState::Closed ==> {
                &&& final(self).state == ConnectionState::Retry
                &&& final(self).msg_buf@ == Seq::<u8>::empty()
                &&& final(self).received_routes@ == Set::<(Vni, Destination, NextHop)>::empty()
                &&& all_removals(r@)
            },
            handler::apply_events(old(self).received_routes@, r@) == final(self).received_routes@,
            handler::all_news(old(self).received_routes@, r@),
    {
        let mut events: Vec<RouteEvent> = Vec::new();
        if self.state == ConnectionState::Closed {
            return events;
        }
        let routes = self.received_routes.get_all_routes();
        for i in 0..routes.len()
            invariant
                events@.len() == i,
                forall|j: int|
                    0 <= j < i ==> #[trigger] events@[j] == (RouteEvent::Removed {
                        vni: routes@[j].0,
                        route: routes@[j].1,
                    }),
        {
            events.push(RouteEvent::Removed { vni: routes[i].0, route: routes[i].1 });
        }
        self.received_routes.clear();
        self.msg_buf = Vec::new();
        self.state = ConnectionState::Retry;
        proof {
            let known = old(self).received_routes@;
            assert forall|i: int| 0 <= i < events@.len() implies known.contains(
                (#[trigger] events@[i]).key(),
            ) by {
                assert(routes@.to_set().contains(routes@[i]));
            }
            assert forall|i: int, j: int| 0 <= i < j < events@.len() implies (
            #[trigger] events@[i]).key() != (#[trigger] events@[j]).key() by {
                assert(routes@[i] != routes@[j]);
            }
            lemma_removals(known, events@);
            let left = handler::apply_events(known, events@);
            assert forall|e: (Vni, Destination, NextHop)| !left.contains(e) by {
                let r = (e.0, Route { destination: e.1, next_hop: e.2 });
                assert(routes@.to_set().contains(r) == route::vni_routes(known).contains(r));
                if known.contains(e) {
                    let j = routes@.index_of(r);
                    assert(events@[j].key() == e);
                }
            }
            assert(left =~= Set::<(Vni, Destination, NextHop)>::empty());
        }
        events
    }

    /// Takes in a command while no connection is open. A shutdown ends the waiting for good; any
    /// other command has a connection opened at once. Returns true for a shutdown.
    pub fn command_while_waiting(&mut self, command: PeerCommand) -> (r: bool)
        requires
            old(self).wf(),
            old(self).state == ConnectionState::Retry,
        ensures
            final(self).same_but_state(old(self)),
            may_follow(old(self).state, final(self).state),
            r == (command == PeerCommand::Shutdown),
            final(self).state == if r {
                ConnectionState::Closed
            } else {
                ConnectionState::Retry
            },
    {
        if command == PeerCommand::Shutdown {
            self.state = ConnectionState::Closed;
            true
        } else {
            false
        }
    }
}

impl Default for PeerState {
    fn default() -> (r: Self)
        ensures
            r.wf(),
            r.state == ConnectionState::Connecting,
            r.received_routes@ == Set::<(Vni, Destination, NextHop)>::empty(),
            r.msg_buf@ == Seq::<u8>::empty(),
            r.keepalive_interval == handshake::DEFAULT_KEEPALIVE_INTERVAL,
    {
        Self::new()
    }
}

// ----------------------------------------------------------------------------
// A connection step by step
// ----------------------------------------------------------------------------

/// What happened to a connection.
#[derive(Debug)]
pub enum PeerEvent {
    /// The connection was opened.
    Opened,
    /// The connection could not be opened.
    NotOpened,
    /// The first message was sent.
    HelloSent,
    /// Bytes were received. No bytes mean that the server closed the connection.
    Received(Vec<u8>),
    /// No bytes were received in time.
    TimedOut,
    /// Sending or receiving failed.
    Failed,
    /// The keepalive timer ticked, after the server has been silent for so many nanoseconds.
    Tick(u128),
    /// A command came from the client.
    Command(PeerCommand),
    /// The message of a command was sent.
    CommandSent(PeerCommand),
    /// The time to wait before a connection is opened again is over.
    Elapsed,
}

/// What comes next on a connection, once what is to be sent was sent.
#[derive(Debug, Clone, Copy, PartialEq, Eq, Structural)]
pub enum PeerNext {
    /// Open a connection.
    Connect,
    /// Report that the first message was sent.
    ReportHello,
    /// Wait for the first bytes.
    AwaitHello,
    /// Wait for bytes, but no longer than the keepalive timeout.
    AwaitKeepalive,
    /// Wait for bytes, a tick of the keepalive timer or a command.
    Run,
    /// Report that the message of a command was sent.
    ReportCommand(PeerCommand),
    /// Wait for the retry interval or a command.
    Wait,
    /// Nothing: the connection was shut down.
    Stop,
}

/// What is to be done on a connection.
#[derive(Debug)]
pub struct PeerReaction {
    /// The messages to be sent.
    pub send: Vec<Message>,
    /// The calls of the route handler that are due.
    pub events: Vec<RouteEvent>,
    /// What comes next.
    pub next: PeerNext,
    /// Why the connection is over, if that was not asked for.
    pub error: Option<Error>,
}

impl PeerState {
    /// The event can happen in the state of the connection.
    pub open spec fn expects(&self, event: PeerEvent) -> bool {
        match event {
            PeerEvent::Opened | PeerEvent::NotOpened | PeerEvent::HelloSent => self.state
                == ConnectionState::Connecting,
            PeerEvent::Received(_) => self.state == ConnectionState::HelloSent || self.state
                == ConnectionState::HelloReceived || self.state == ConnectionState::Established,
            PeerEvent::TimedOut => self.state == ConnectionState::HelloReceived,
            PeerEvent::Failed => self.state != ConnectionState::Retry && self.state
                != ConnectionState::Closed,
            PeerEvent::Tick(_) | PeerEvent::CommandSent(_) => self.state
                == ConnectionState::Established,
            PeerEvent::Command(_) => self.state == ConnectionState::Established || self.state
                == ConnectionState::Retry,
            PeerEvent::Elapsed => self.state == ConnectionState::Retry,
        }
    }

    /// The connection is over and will be opened again: all received routes and bytes are gone, and
    /// nothing is sent.
    pub open spec fn is_lost(&self, before: &PeerState, reaction: PeerReaction) -> bool {
        &&& self.state == ConnectionState::Retry
        &&& self.received_routes@ == Set::<(Vni, Destination, NextHop)>::empty()
        &&& self.msg_buf@ == Seq::<u8>::empty()
        &&& self.keepalive_interval == before.keepalive_interval
        &&& reaction.send@ == Seq::<Message>::empty()
        &&& reaction.next == PeerNext::Wait
    }

    /// Nothing but the state of the connection changes, no handler is called and nothing is
    /// wrong.
    pub open spec fn goes_on(&self, before: &PeerState, reaction: PeerReaction) -> bool {
        &&& self.received_routes@ == before.received_routes@
        &&& self.msg_buf@ == before.msg_buf@
        &&& self.keepalive_interval == before.keepalive_interval
        &&& reaction.events@ == Seq::<RouteEvent>::empty()
        &&& reaction.error is None
    }

    /// Ends a connection.
    fn lose(&mut self, error: Option<Error>) -> (r: PeerReaction)
        requires
            old(self).wf(),
            old(self).state != ConnectionState::Closed,
        ensures
            final(self).wf(),
            final(self).is_lost(old(self), r),
            may_follow(old(self).state, final(self).state),
            all_removals(r.events@),
            handler::apply_events(old(self).received_routes@, r.events@)
                == final(self).received_routes@,
            handler::all_news(old(self).received_routes@, r.events@),
            r.error == error,
    {
        let events = self.connection_lost();
        PeerReaction { send: Vec::new(), events, next: PeerNext::Wait, error }
    }

    /// Takes in bytes from the server while the connection is being established or is so.
    fn step_received(
        &mut self,
        data: &Vec<u8>,
        subscriptions: &Members<Vni>,
        announced_routes: &RouteTable,
    ) -> (r: PeerReaction)
        requires
            old(self).wf(),
            subscriptions.wf(),
            announced_routes.wf(),
            old(self).expects(PeerEvent::Received(*data)),
        ensures
            final(self).wf(),
            may_follow(old(self).state, final(self).state),
            handler::apply_events(old(self).received_routes@, r.events@)
                == final(self).received_routes@,
            handler::all_news(old(self).received_routes@, r.events@),
            received_step(
                old(self),
                final(self),
                data@,
                subscriptions@,
                announced_routes@,
                r,
            ),
    {
        let mut send: Vec<Message> = Vec::new();
        if self.state == ConnectionState::HelloSent {
            match self.receive_hello(data.as_slice()) {
                Ok(()) => {
                    send.push(Message::Keepalive);
                    assert(send@ =~= seq![Message::Keepalive]);
                    PeerReaction {
                        send,
                        events: Vec::new(),
                        next: PeerNext::AwaitKeepalive,
                        error: None,
                    }
                },
                Err(e) => self.lose(Some(e)),
            }
        } else if self.state == ConnectionState::HelloReceived {
            match self.receive_keepalive(data.as_slice()) {
                Ok(()) => PeerReaction {
                    send: resync(subscriptions, announced_routes),
                    events: Vec::new(),
                    next: PeerNext::Run,
                    error: None,
                },
                Err(e) => self.lose(Some(e)),
            }
        } else {
            let (events, step) = self.receive(data.as_slice());
            let ghost known = old(self).received_routes@;
            let ghost reading = stream::read_messages(old(self).msg_buf@ + data@);
            proof {
                lemma_messages_told(known, reading.messages);
            }
            match step {
                PeerStep::Continue => PeerReaction {
                    send,
                    events,
                    next: PeerNext::Run,
                    error: None,
                },
                PeerStep::Closed => self.lose(None),
                PeerStep::Failed(e) => {
                    let mut all = events;
                    let ghost told = all@;
                    let mut reaction = self.lose(Some(e));
                    let ghost removals = reaction.events@;
                    all.append(&mut reaction.events);
                    proof {
                        assert(all@ =~= told + removals);
                        assert(all@.take(told.len() as int) =~= told);
                        assert(all@.skip(told.len() as int) =~= removals);
                        handler::lemma_more_events(known, told, removals);
                    }
                    PeerReaction {
                        send: reaction.send,
                        events: all,
                        next: reaction.next,
                        error: reaction.error,
                    }
                },
            }
        }
    }

    /// Takes in what happened to the connection, and returns what is to be done. The
    /// subscriptions and announced routes are those of the client.
    pub fn step(
        &mut self,
        event: PeerEvent,
        subscriptions: &Members<Vni>,
        announced_routes: &RouteTable,
    ) -> (r: PeerReaction)
        requires
            old(self).wf(),
            subscriptions.wf(),
            announced_routes.wf(),
            old(self).expects(event),
        ensures
            final(self).wf(),
            stepped(
                old(self),
                final(self),
                event,
                subscriptions@,
                announced_routes@,
                r,
            ),
    {
        let mut send: Vec<Message> = Vec::new();
        match event {
            PeerEvent::Opened => {
                send.push(Self::hello());
                PeerReaction {
                    send,
                    events: Vec::new(),
                    next: PeerNext::ReportHello,
                    error: None,
                }
            },
            PeerEvent::NotOpened => {
                self.connect_failed();
                PeerReaction { send, events: Vec::new(), next: PeerNext::Wait, error: None }
            },
            PeerEvent::HelloSent => {
                self.hello_sent();
                PeerReaction { send, events: Vec::new(), next: PeerNext::AwaitHello, error: None }
            },
            PeerEvent::Received(data) => self.step_received(
                &data,
                subscriptions,
                announced_routes,
            ),
            PeerEvent::TimedOut => self.lose(Some(Error::Timeout)),
            PeerEvent::Failed => self.lose(None),
            PeerEvent::Tick(silent_nanos) => match self.tick(silent_nanos) {
                Ok(keepalive) => {
                    send.push(keepalive);
                    PeerReaction { send, events: Vec::new(), next: PeerNext::Run, error: None }
                },
                Err(e) => self.lose(Some(e)),
            },
            PeerEvent::Command(command) => {
                if self.state == ConnectionState::Retry {
                    let next = if self.command_while_waiting(command) {
                        PeerNext::Stop
                    } else {
                        self.connecting();
                        PeerNext::Connect
                    };
                    PeerReaction { send, events: Vec::new(), next, error: None }
                } else {
                    match command.message() {
                        Some(message) => {
                            send.push(message);
                            PeerReaction {
                                send,
                                events: Vec::new(),
                                next: PeerNext::ReportCommand(command),
                                error: None,
                            }
                        },
                        None => {
                            let events = self.command_done(command);
                            PeerReaction { send, events, next: PeerNext::Stop, error: None }
                        },
                    }
                }
            },
            PeerEvent::CommandSent(command) => {
                let events = self.command_done(command);
                let next = if command == PeerCommand::Shutdown {
                    PeerNext::Stop
                } else {
                    PeerNext::Run
                };
                PeerReaction { send, events, next, error: None }
            },
            PeerEvent::Elapsed => {
                self.connecting();
                PeerReaction { send, events: Vec::new(), next: PeerNext::Connect, error: None }
            },
        }
    }
}

/// What an event does to a connection, and what is to be done then. The calls of the route
/// handler that are due turn the routes that were known into those that are, and each tells
/// something new.
pub open spec fn stepped(
    before: &PeerState,
    after: &PeerState,
    event: PeerEvent,
    subscriptions: Set<Vni>,
    announced: Set<(Vni, Destination, NextHop)>,
    reaction: PeerReaction,
) -> bool {
    &&& may_follow(before.state, after.state)
    &&& handler::apply_events(before.received_routes@, reaction.events@) == after.received_routes@
    &&& handler::all_news(before.received_routes@, reaction.events@)
    &&& match event {
        PeerEvent::Opened => {
            &&& after.goes_on(before, reaction)
            &&& after.state == ConnectionState::Connecting
            &&& reaction.send@ == seq![
                Message::Hello {
                    keepalive_interval: handshake::DEFAULT_KEEPALIVE_INTERVAL,
                    is_server: false,
                },
            ]
            &&& reaction.next == PeerNext::ReportHello
        },
        PeerEvent::NotOpened => {
            &&& after.goes_on(before, reaction)
            &&& after.state == ConnectionState::Retry
            &&& reaction.send@ == Seq::<Message>::empty()
            &&& reaction.next == PeerNext::Wait
        },
        PeerEvent::HelloSent => {
            &&& after.goes_on(before, reaction)
            &&& after.state == ConnectionState::HelloSent
            &&& reaction.send@ == Seq::<Message>::empty()
            &&& reaction.next == PeerNext::AwaitHello
        },
        PeerEvent::Received(data) => received_step(
            before,
            after,
            data@,
            subscriptions,
            announced,
            reaction,
        ),
        PeerEvent::TimedOut => {
            &&& after.is_lost(before, reaction)
            &&& all_removals(reaction.events@)
            &&& reaction.error matches Some(Error::Timeout)
        },
        PeerEvent::Failed => {
            &&& after.is_lost(before, reaction)
            &&& all_removals(reaction.events@)
            &&& reaction.error is None
        },
        PeerEvent::Tick(silent_nanos) => if silent_nanos > handshake::spec_timeout_nanos(
            before.keepalive_interval,
        ) {
            &&& after.is_lost(before, reaction)
            &&& all_removals(reaction.events@)
            &&& reaction.error matches Some(Error::Timeout)
        } else {
            &&& after.goes_on(before, reaction)
            &&& after.state == ConnectionState::Established
            &&& reaction.send@ == seq![Message::Keepalive]
            &&& reaction.next == PeerNext::Run
        },
        PeerEvent::Command(command) => {
            &&& after.goes_on(before, reaction)
            &&& command == PeerCommand::Shutdown ==> {
                &&& after.state == ConnectionState::Closed
                &&& reaction.send@ == Seq::<Message>::empty()
                &&& reaction.next == PeerNext::Stop
            }
            &&& command != PeerCommand::Shutdown && before.state
                == ConnectionState::Established ==> {
                &&& after.state == ConnectionState::Established
                &&& command.spec_message() == Some(reaction.send@[0]) && reaction.send@.len() == 1
                &&& reaction.next == PeerNext::ReportCommand(command)
            }
            &&& command != PeerCommand::Shutdown && before.state
                == ConnectionState::Retry ==> {
                &&& after.state == ConnectionState::Connecting
                &&& reaction.send@ == Seq::<Message>::empty()
                &&& reaction.next == PeerNext::Connect
            }
        },
        PeerEvent::CommandSent(command) => {
            &&& after.state == if command == PeerCommand::Shutdown {
                ConnectionState::Closed
            } else {
                ConnectionState::Established
            }
            &&& after.received_routes@ == match command {
                PeerCommand::Unsubscribe(vni) => route::without_vni(
                    before.received_routes@,
                    vni,
                ),
                _ => before.received_routes@,
            }
            &&& after.msg_buf@ == before.msg_buf@
            &&& after.keepalive_interval == before.keepalive_interval
            &&& all_removals(reaction.events@)
            &&& reaction.send@ == Seq::<Message>::empty()
            &&& reaction.next == if command == PeerCommand::Shutdown {
                PeerNext::Stop
            } else {
                PeerNext::Run
            }
            &&& reaction.error is None
        },
        PeerEvent::Elapsed => {
            &&& after.goes_on(before, reaction)
            &&& after.state == ConnectionState::Connecting
            &&& reaction.send@ == Seq::<Message>::empty()
            &&& reaction.next == PeerNext::Connect
        },
    }
}

/// What bytes from the server do to a connection: the first must be a HELLO, which is answered
/// with a KEEPALIVE; the next must be a KEEPALIVE, after which the server is told all
/// subscriptions and announced routes; all further ones are messages about routes.
pub open spec fn received_step(
    before: &PeerState,
    after: &PeerState,
    data: Seq<u8>,
    subscriptions: Set<Vni>,
    announced: Set<(Vni, Destination, NextHop)>,
    reaction: PeerReaction,
) -> bool {
    if before.state == ConnectionState::HelloSent {
        match handshake::spec_read_hello(data) {
            Ok(Some((interval, _))) => {
                &&& after.state == ConnectionState::HelloReceived
                &&& after.received_routes@ == before.received_routes@
                &&& after.msg_buf@ == before.msg_buf@
                &&& after.keepalive_interval == handshake::spec_negotiate(
                    handshake::DEFAULT_KEEPALIVE_INTERVAL,
                    interval,
                )
                &&& reaction.send@ == seq![Message::Keepalive]
                &&& reaction.events@ == Seq::<RouteEvent>::empty()
                &&& reaction.next == PeerNext::AwaitKeepalive
                &&& reaction.error is None
            },
            Ok(None) => {
                &&& after.is_lost(before, reaction)
                &&& all_removals(reaction.events@)
                &&& reaction.error matches Some(e) && e.is_protocol("expected HELLO response"@)
            },
            Err(failure) => {
                &&& after.is_lost(before, reaction)
                &&& all_removals(reaction.events@)
                &&& reaction.error matches Some(e) && e.reports(failure)
            },
        }
    } else if before.state == ConnectionState::HelloReceived {
        if data.len() == 0 {
            &&& after.is_lost(before, reaction)
            &&& all_removals(reaction.events@)
            &&& reaction.error matches Some(Error::Closed)
        } else {
            match Message::spec_decode(data) {
                Ok((message, _)) => if message == Message::Keepalive {
                    &&& after.state == ConnectionState::Established
                    &&& after.received_routes@ == before.received_routes@
                    &&& after.msg_buf@ == Seq::<u8>::empty()
                    &&& after.keepalive_interval == before.keepalive_interval
                    &&& resyncs(reaction.send@, subscriptions, announced)
                    &&& reaction.events@ == Seq::<RouteEvent>::empty()
                    &&& reaction.next == PeerNext::Run
                    &&& reaction.error is None
                } else {
                    &&& after.is_lost(before, reaction)
                    &&& all_removals(reaction.events@)
                    &&& reaction.error matches Some(e) && e.is_protocol(
                        "expected KEEPALIVE response"@,
                    )
                },
                Err(failure) => {
                    &&& after.is_lost(before, reaction)
                    &&& all_removals(reaction.events@)
                    &&& reaction.error matches Some(e) && e.reports(failure)
                },
            }
        }
    } else if data.len() == 0 {
        &&& after.is_lost(before, reaction)
        &&& all_removals(reaction.events@)
        &&& reaction.error is None
    } else {
        let reading = stream::read_messages(before.msg_buf@ + data);
        let told = message_events(before.received_routes@, reading.messages);
        match reading.failure {
            None => {
                &&& after.state == before.state
                &&& after.received_routes@ == received_after_all(
                    before.received_routes@,
                    reading.messages,
                )
                &&& after.msg_buf@ == reading.rest
                &&& after.keepalive_interval == before.keepalive_interval
                &&& reaction.send@ == Seq::<Message>::empty()
                &&& reaction.events@ == told
                &&& reaction.next == PeerNext::Run
                &&& reaction.error is None
            },
            Some(failure) => {
                &&& after.is_lost(before, reaction)
                &&& reaction.events@.len() >= told.len()
                &&& reaction.events@.take(told.len() as int) == told
                &&& all_removals(reaction.events@.skip(told.len() as int))
                &&& reaction.error matches Some(e) && e.reports(failure)
            },
        }
    }
}

/// What the server is told when a connection is established: all subscriptions, then all
/// announced routes.
pub fn resync(subscriptions: &Members<Vni>, announced_routes: &RouteTable) -> (r: Vec<Message>)
    requires
        subscriptions.wf(),
        announced_routes.wf(),
    ensures
        resyncs(r@, subscriptions@, announced_routes@),
{
    let vnis = subscriptions.list();
    let mut messages: Vec<Message> = Vec::new();
    for i in 0..vnis.len()
        invariant
            messages@.len() == i,
            forall|j: int|
                0 <= j < i ==> #[trigger] messages@[j] == (Message::Subscribe { vni: vnis@[j] }),
    {
        messages.push(Message::Subscribe { vni: vnis[i] });
    }
    let routes = announced_routes.get_all_routes();
    for i in 0..routes.len()
        invariant
            messages@.len() == vnis@.len() + i,
            forall|j: int|
                0 <= j < vnis@.len() ==> #[trigger] messages@[j] == (Message::Subscribe {
                    vni: vnis@[j],
                }),
            forall|j: int|
                vnis@.len() <= j < vnis@.len() + i ==> #[trigger] messages@[j] == announcement(
                    routes@[j - vnis@.len()].0,
                    routes@[j - vnis@.len()].1,
                ),
    {
        let (vni, route) = routes[i];
        messages.push(
            Message::Update {
                action: Action::Add,
                vni,
                destination: route.destination,
                next_hop: route.next_hop,
            },
        );
    }
    assert(lists_resync(messages@, vnis@, routes@));
    messages
}

/// The update that announces a route.
pub open spec fn announcement(vni: Vni, route: Route) -> Message {
    Message::Update {
        action: Action::Add,
        vni,
        destination: route.destination,
        next_hop: route.next_hop,
    }
}

/// The messages are a subscription to each VNI, followed by an announcement of each route, each
/// once.
pub open spec fn resyncs(
    messages: Seq<Message>,
    subscriptions: Set<Vni>,
    announced: Set<(Vni, Destination, NextHop)>,
) -> bool {
    exists|vnis: Seq<Vni>, routes: Seq<(Vni, Route)>| #[trigger]
        lists_resync(messages, vnis, routes) && vnis.no_duplicates() && vnis.to_set()
            == subscriptions && routes.no_duplicates() && routes.to_set() == route::vni_routes(
            announced,
        )
}

/// The messages are a subscription to each VNI of a list, followed by an announcement of each
/// route of another.
pub open spec fn lists_resync(
    messages: Seq<Message>,
    vnis: Seq<Vni>,
    routes: Seq<(Vni, Route)>,
) -> bool {
    &&& messages.len() == vnis.len() + routes.len()
    &&& forall|i: int|
        0 <= i < vnis.len() ==> #[trigger] messages[i] == (Message::Subscribe { vni: vnis[i] })
    &&& forall|i: int|
        vnis.len() <= i < messages.len() ==> #[trigger] messages[i] == announcement(
            routes[i - vnis.len()].0,
            routes[i - vnis.len()].1,
        )
}

// ----------------------------------------------------------------------------
// Retrying
// ----------------------------------------------------------------------------

/// A random number, from `rand::random`. Nothing is claimed of it.
#[verifier::external_body]
fn random_number() -> (r: u64) {
    rand::random::<u64>()
}

/// How many seconds to wait before a connection is opened again, chosen by a number.
pub fn retry_delay_from(random: u64) -> (r: u64)
    ensures
        r == RETRY_INTERVAL_MIN + random as int % (RETRY_INTERVAL_MAX - RETRY_INTERVAL_MIN + 1),
        RETRY_INTERVAL_MIN <= r <= RETRY_INTERVAL_MAX,
{
    RETRY_INTERVAL_MIN + random % (RETRY_INTERVAL_MAX - RETRY_INTERVAL_MIN + 1)
}

/// How many seconds to wait before a connection is opened again.
pub fn retry_delay() -> (r: u64)
    ensures
        RETRY_INTERVAL_MIN <= r <= RETRY_INTERVAL_MAX,
{
    retry_delay_from(random_number())
}

// ----------------------------------------------------------------------------
// Laws
// ----------------------------------------------------------------------------

/// The states that a connection can go to.
pub open spec fn may_follow(before: ConnectionState, after: ConnectionState) -> bool {
    before == after || match after {
        ConnectionState::Connecting => before == ConnectionState::Retry,
        ConnectionState::HelloSent => before == ConnectionState::Connecting,
        ConnectionState::HelloReceived => before == ConnectionState::HelloSent,
        ConnectionState::Established => before == ConnectionState::HelloReceived,
        ConnectionState::Retry => before != ConnectionState::Closed,
        ConnectionState::Closed => before == ConnectionState::Established || before
            == ConnectionState::Retry,
    }
}

/// A connection that was not established and is so later has gone through the handshake before:
/// the state just before was HELLO_RECEIVED, the one before that HELLO_SENT, and the one before
/// that CONNECTING.
pub proof fn lemma_handshake_order(
    first: ConnectionState,
    second: ConnectionState,
    third: ConnectionState,
)
    requires
        may_follow(first, second),
        may_follow(second, third),
        first != second,
        second != third,
    ensures
        third == ConnectionState::Established ==> second == ConnectionState::HelloReceived && first
            == ConnectionState::HelloSent,
        third == ConnectionState::HelloReceived ==> second == ConnectionState::HelloSent && first
            == ConnectionState::Connecting,
{
}

/// A connection that was closed stays closed.
pub proof fn lemma_closed_for_good(after: ConnectionState)
    requires
        may_follow(ConnectionState::Closed, after),
    ensures
        after == ConnectionState::Closed,
{
}

/// When a connection is established, the server is told every subscription and every announced
/// route, and nothing else.
pub proof fn lemma_resync_complete(
    messages: Seq<Message>,
    subscriptions: Set<Vni>,
    announced: Set<(Vni, Destination, NextHop)>,
    message: Message,
)
    requires
        resyncs(messages, subscriptions, announced),
    ensures
        messages.contains(message) <==> match message {
            Message::Subscribe { vni } => subscriptions.contains(vni),
            Message::Update { action: Action::Add, vni, destination, next_hop } => announced.contains(
                (vni, destination, next_hop),
            ),
            _ => false,
        },
{
    let (vnis, routes) = choose|vnis: Seq<Vni>, routes: Seq<(Vni, Route)>| #[trigger]
        lists_resync(messages, vnis, routes) && vnis.no_duplicates() && vnis.to_set()
            == subscriptions && routes.no_duplicates() && routes.to_set() == route::vni_routes(
            announced,
        );
    if messages.contains(message) {
        let i = messages.index_of(message);
        if i < vnis.len() {
            assert(vnis.to_set().contains(vnis[i]));
        } else {
            assert(routes.to_set().contains(routes[i - vnis.len()]));
        }
    }
    match message {
        Message::Subscribe { vni } => {
            if subscriptions.contains(vni) {
                assert(vnis.to_set().contains(vni));
                let i = vnis.index_of(vni);
                assert(messages[i] == message);
            }
        },
        Message::Update { action: Action::Add, vni, destination, next_hop } => {
            if announced.contains((vni, destination, next_hop)) {
                let r = (vni, Route { destination, next_hop });
                assert(routes.to_set().contains(r));
                let i = routes.index_of(r);
                assert(messages[vnis.len() + i] == message);
            }
        },
        _ => {},
    }
}

/// What is told of messages makes up exactly the routes that are known, and tells nothing twice.
pub proof fn lemma_messages_told(
    received: Set<(Vni, Destination, NextHop)>,
    messages: Seq<Message>,
)
    ensures
        handler::apply_events(received, message_events(received, messages)) == received_after_all(
            received,
            messages,
        ),
        handler::all_news(received, message_events(received, messages)),
    decreases messages.len(),
{
    if messages.len() > 0 {
        let earlier = messages.drop_last();
        let message = messages.last();
        lemma_messages_told(received, earlier);
        let mid = received_after_all(received, earlier);
        match message_event(mid, message) {
            Some(event) => {
                handler::lemma_push_event(received, message_events(received, earlier), event);
            },
            None => {
                assert(received_after(mid, message) =~= mid);
            },
        }
    }
}

/// Handling messages and then more of them is handling them all.
pub proof fn lemma_messages_split(
    received: Set<(Vni, Destination, NextHop)>,
    messages: Seq<Message>,
    more: Seq<Message>,
)
    ensures
        received_after_all(received, messages + more) == received_after_all(
            received_after_all(received, messages),
            more,
        ),
        message_events(received, messages + more) == message_events(received, messages)
            + message_events(received_after_all(received, messages), more),
    decreases more.len(),
{
    if more.len() == 0 {
        assert(messages + more =~= messages);
        assert(message_events(received, messages) + Seq::<RouteEvent>::empty()
            =~= message_events(received, messages));
    } else {
        assert((messages + more).drop_last() =~= messages + more.drop_last());
        assert((messages + more).last() == more.last());
        lemma_messages_split(received, messages, more.drop_last());
        assert(message_events(received, messages + more) =~= message_events(received, messages)
            + message_events(received_after_all(received, messages), more));
    }
}

/// It makes no difference in which pieces the bytes of updates arrive: the handler is called for
/// the same routes in the same order, and the same routes are known.
pub proof fn lemma_pieces_told(received: Set<(Vni, Destination, NextHop)>, s: Seq<u8>, t: Seq<u8>)
    requires
        stream::read_messages(s).failure is None,
    ensures
        ({
            let all = stream::read_messages(s + t).messages;
            let first = stream::read_messages(s);
            let second = stream::read_messages(first.rest + t).messages;
            let mid = received_after_all(received, first.messages);
            &&& message_events(received, all) == message_events(received, first.messages)
                + message_events(mid, second)
            &&& received_after_all(received, all) == received_after_all(mid, second)
        }),
{
    stream::lemma_read_pieces(s, t);
    let first = stream::read_messages(s);
    lemma_messages_split(
        received,
        first.messages,
        stream::read_messages(first.rest + t).messages,
    );
}

/// A client makes of a message what the server expects it to: the routes of a VNI that it received
/// are those that a subscriber knows of.
pub proof fn lemma_client_hears(
    received: Set<(Vni, Destination, NextHop)>,
    message: Message,
    vni: Vni,
)
    ensures
        route::routes_of(received_after(received, message), vni) == server::hear(
            route::routes_of(received, vni),
            vni,
            message,
        ),
{
    assert(route::routes_of(received_after(received, message), vni) =~= server::hear(
        route::routes_of(received, vni),
        vni,
        message,
    ));
}

/// What stays when only the state of a connection differs, and when a connection goes on.
pub proof fn lemma_stays(one: &PeerState, other: &PeerState, reaction: PeerReaction)
    ensures
        one.same_but_state(other) ==> one.received_routes@ == other.received_routes@
            && one.msg_buf@ == other.msg_buf@ && one.keepalive_interval
            == other.keepalive_interval,
        one.goes_on(other, reaction) ==> one.received_routes@ == other.received_routes@
            && one.msg_buf@ == other.msg_buf@ && one.keepalive_interval == other.keepalive_interval
            && reaction.events@ == Seq::<RouteEvent>::empty() && reaction.error is None,
{
}

/// What a command has sent on an established connection: a subscription and its end name the VNI of
/// the command, and an update is sent exactly as it is. A shutdown sends nothing and closes the
/// connection. Nothing else changes until the message was sent.
pub proof fn lemma_command_sent(
    before: &PeerState,
    after: &PeerState,
    command: PeerCommand,
    subscriptions: Set<Vni>,
    announced: Set<(Vni, Destination, NextHop)>,
    reaction: PeerReaction,
)
    requires
        before.state == ConnectionState::Established,
        stepped(
            before,
            after,
            PeerEvent::Command(command),
            subscriptions,
            announced,
            reaction,
        ),
    ensures
        reaction.send@ == match command {
            PeerCommand::Subscribe(vni) => seq![Message::Subscribe { vni }],
            PeerCommand::Unsubscribe(vni) => seq![Message::Unsubscribe { vni }],
            PeerCommand::SendUpdate(message) => seq![message],
            PeerCommand::Shutdown => Seq::empty(),
        },
        after.state == if command is Shutdown {
            ConnectionState::Closed
        } else {
            ConnectionState::Established
        },
        reaction.next == if command is Shutdown {
            PeerNext::Stop
        } else {
            PeerNext::ReportCommand(command)
        },
        reaction.events@ == Seq::<RouteEvent>::empty(),
        reaction.error is None,
        after.received_routes@ == before.received_routes@,
        after.msg_buf@ == before.msg_buf@,
        after.keepalive_interval == before.keepalive_interval,
{
    if !(command is Shutdown) {
        assert(reaction.send@ =~= seq![reaction.send@[0]]);
    }
}

/// What follows once the message of a command was sent: when a subscription ended, the routes of
/// its VNI go and no others, and the handler is told of just those; otherwise nothing changes.
pub proof fn lemma_command_done(
    before: &PeerState,
    after: &PeerState,
    command: PeerCommand,
    subscriptions: Set<Vni>,
    announced: Set<(Vni, Destination, NextHop)>,
    reaction: PeerReaction,
    key: (Vni, Destination, NextHop),
)
    requires
        before.state == ConnectionState::Established,
        stepped(
            before,
            after,
            PeerEvent::CommandSent(command),
            subscriptions,
            announced,
            reaction,
        ),
    ensures
        after.received_routes@.contains(key) <==> before.received_routes@.contains(key) && command
            != PeerCommand::Unsubscribe(key.0),
        is_told(reaction.events@, key, true) == false,
        is_told(reaction.events@, key, false) <==> before.received_routes@.contains(key) && command
            == PeerCommand::Unsubscribe(key.0),
        reaction.send@ == Seq::<Message>::empty(),
        reaction.error is None,
        !(command is Shutdown) ==> after.state == ConnectionState::Established && reaction.next
            == PeerNext::Run,
{
    lemma_only_removals(before.received_routes@, reaction.events@, key);
}

/// The handler is told that a route was added, or that it was removed.
pub open spec fn is_told(
    events: Seq<RouteEvent>,
    key: (Vni, Destination, NextHop),
    added: bool,
) -> bool {
    let (vni, destination, next_hop) = key;
    let route = Route { destination, next_hop };
    if added {
        events.contains(RouteEvent::Added { vni, route })
    } else {
        events.contains(RouteEvent::Removed { vni, route })
    }
}

/// Where only removals are told, each of something known, a route is told of exactly if it was
/// known and is so no longer.
pub proof fn lemma_only_removals(
    known: Set<(Vni, Destination, NextHop)>,
    events: Seq<RouteEvent>,
    key: (Vni, Destination, NextHop),
)
    requires
        all_removals(events),
        handler::all_news(known, events),
    ensures
        !is_told(events, key, true),
        is_told(events, key, false) <==> known.contains(key) && !handler::apply_events(
            known,
            events,
        ).contains(key),
        handler::apply_events(known, events).contains(key) ==> known.contains(key),
    decreases events.len(),
{
    let (vni, destination, next_hop) = key;
    let route = Route { destination, next_hop };
    if events.contains(RouteEvent::Added { vni, route }) {
        let i = events.index_of(RouteEvent::Added { vni, route });
        assert(events[i] is Removed);
    }
    if events.len() > 0 {
        let earlier = events.drop_last();
        let last = events.last();
        assert forall|i: int| 0 <= i < earlier.len() implies #[trigger] earlier[i] is Removed by {
            assert(earlier[i] == events[i]);
        }
        lemma_only_removals(known, earlier, key);
        assert(last is Removed);
        assert(earlier.push(last) =~= events);
        crate::members::lemma_push_contains(earlier, last, RouteEvent::Removed { vni, route });
        match last {
            RouteEvent::Removed { vni: v, route: r } => {
                assert(r == (Route { destination: r.destination, next_hop: r.next_hop }));
                assert(last.key() == key <==> last == (RouteEvent::Removed { vni, route }));
            },
            _ => {},
        }
    }
}

/// The handshake, as the client sees it: a HELLO with the client's interval is sent once a
/// connection was opened; the HELLO of the server is answered with a KEEPALIVE, and the smaller
/// interval is agreed on; its KEEPALIVE establishes the connection, and the server is told every
/// subscription and every announced route, each once, and nothing else.
pub proof fn lemma_peer_handshake(
    before: &PeerState,
    after: &PeerState,
    event: PeerEvent,
    subscriptions: Set<Vni>,
    announced: Set<(Vni, Destination, NextHop)>,
    reaction: PeerReaction,
    interval: u32,
    is_server: bool,
    message: Message,
)
    requires
        before.expects(event),
        stepped(before, after, event, subscriptions, announced, reaction),
    ensures
        event is Opened ==> {
            &&& after.state == ConnectionState::Connecting
            &&& reaction.send@ == seq![
                Message::Hello {
                    keepalive_interval: handshake::DEFAULT_KEEPALIVE_INTERVAL,
                    is_server: false,
                },
            ]
            &&& reaction.next == PeerNext::ReportHello
        },
        event is HelloSent ==> {
            &&& after.state == ConnectionState::HelloSent
            &&& reaction.send@ == Seq::<Message>::empty()
            &&& reaction.next == PeerNext::AwaitHello
        },
        before.state == ConnectionState::HelloSent && (event matches PeerEvent::Received(data)
            && data@ == (Message::Hello { keepalive_interval: interval, is_server }).bytes()) ==> {
            &&& after.state == ConnectionState::HelloReceived
            &&& after.keepalive_interval <= interval
            &&& after.keepalive_interval <= handshake::DEFAULT_KEEPALIVE_INTERVAL
            &&& after.keepalive_interval == interval || after.keepalive_interval
                == handshake::DEFAULT_KEEPALIVE_INTERVAL
            &&& reaction.send@ == seq![Message::Keepalive]
            &&& reaction.next == PeerNext::AwaitKeepalive
            &&& reaction.error is None
        },
        before.state == ConnectionState::HelloReceived && (event matches PeerEvent::Received(data)
            && data@ == Message::Keepalive.bytes()) ==> {
            &&& after.state == ConnectionState::Established
            &&& after.keepalive_interval == before.keepalive_interval
            &&& after.msg_buf@ == Seq::<u8>::empty()
            &&& after.received_routes@ == before.received_routes@
            &&& reaction.send@.no_duplicates()
            &&& reaction.send@.contains(message) <==> match message {
                Message::Subscribe { vni } => subscriptions.contains(vni),
                Message::Update { action, vni, destination, next_hop } => action == Action::Add
                    && announced.contains((vni, destination, next_hop)),
                _ => false,
            }
            &&& reaction.next == PeerNext::Run
            &&& reaction.error is None
        },
        after.state == ConnectionState::Established && before.state != ConnectionState::Established
            ==> before.state == ConnectionState::HelloReceived && event is Received,
{
    let none = Seq::<u8>::empty();
    let hello = Message::Hello { keepalive_interval: interval, is_server };
    handshake::lemma_read_hello(hello, none, none);
    assert(hello.bytes() + none =~= hello.bytes());
    Message::Keepalive.lemma_round_trip(none);
    assert(Message::Keepalive.bytes() + none =~= Message::Keepalive.bytes());
    handshake::lemma_negotiate(handshake::DEFAULT_KEEPALIVE_INTERVAL, interval);
    if before.state == ConnectionState::HelloReceived && (event matches PeerEvent::Received(data)
        && data@ == Message::Keepalive.bytes()) {
        lemma_resync_complete(reaction.send@, subscriptions, announced, message);
        lemma_resync_once(reaction.send@, subscriptions, announced);
    }
}

/// When a connection is established, the server is told nothing twice, and all subscriptions before
/// the first route.
pub proof fn lemma_resync_once(
    messages: Seq<Message>,
    subscriptions: Set<Vni>,
    announced: Set<(Vni, Destination, NextHop)>,
)
    requires
        resyncs(messages, subscriptions, announced),
    ensures
        messages.no_duplicates(),
        forall|i: int, j: int|
            0 <= i < j < messages.len() && #[trigger] messages[j] is Subscribe
                ==> #[trigger] messages[i] is Subscribe,
{
    let (vnis, routes) = choose|vnis: Seq<Vni>, routes: Seq<(Vni, Route)>| #[trigger]
        lists_resync(messages, vnis, routes) && vnis.no_duplicates() && vnis.to_set()
            == subscriptions && routes.no_duplicates() && routes.to_set() == route::vni_routes(
            announced,
        );
    assert forall|i: int, j: int|
        0 <= i < messages.len() && 0 <= j < messages.len() && i != j implies messages[i]
        != messages[j] by {
        if i >= vnis.len() && j >= vnis.len() {
            let a = routes[i - vnis.len()];
            let b = routes[j - vnis.len()];
            assert(a != b);
            assert(a.1 == (Route { destination: a.1.destination, next_hop: a.1.next_hop }));
        } else if i < vnis.len() && j < vnis.len() {
            assert(vnis[i] != vnis[j]);
        }
    }
}

/// During the handshake, any other message than the one that is due ends the connection with an
/// error, and so does the end of the bytes: nothing is sent, and it is opened again later.
pub proof fn lemma_peer_refuses(
    before: &PeerState,
    after: &PeerState,
    data: Vec<u8>,
    subscriptions: Set<Vni>,
    announced: Set<(Vni, Destination, NextHop)>,
    reaction: PeerReaction,
    message: Message,
)
    requires
        before.state == ConnectionState::HelloSent || before.state
            == ConnectionState::HelloReceived,
        stepped(
            before,
            after,
            PeerEvent::Received(data),
            subscriptions,
            announced,
            reaction,
        ),
        message.wf(),
        data@ == Seq::<u8>::empty() || data@ == message.bytes(),
        before.state == ConnectionState::HelloSent && data@.len() > 0 ==> !(message is Hello),
        before.state == ConnectionState::HelloReceived && data@.len() > 0 ==> !(
        message is Keepalive),
    ensures
        after.state == ConnectionState::Retry,
        reaction.send@ == Seq::<Message>::empty(),
        reaction.next == PeerNext::Wait,
        reaction.error is Some,
{
    let none = Seq::<u8>::empty();
    handshake::lemma_read_hello(message, none, none);
    message.lemma_round_trip(none);
    assert(message.bytes() + none =~= message.bytes());
}

/// When a connection is lost, the client forgets all that it received and the handler is told of
/// the removal of each known route and of nothing else; the connection is opened again after a
/// while.
pub proof fn lemma_connection_lost(
    before: &PeerState,
    after: &PeerState,
    event: PeerEvent,
    subscriptions: Set<Vni>,
    announced: Set<(Vni, Destination, NextHop)>,
    reaction: PeerReaction,
    key: (Vni, Destination, NextHop),
)
    requires
        before.expects(event),
        stepped(before, after, event, subscriptions, announced, reaction),
        event is Failed || event is TimedOut || (event matches PeerEvent::Received(data)
            && data@.len() == 0) || (event matches PeerEvent::Tick(silent_nanos) && 2 * silent_nanos
            > 5_000_000_000 * before.keepalive_interval),
    ensures
        after.state == ConnectionState::Retry,
        after.received_routes@ == Set::<(Vni, Destination, NextHop)>::empty(),
        after.msg_buf@ == Seq::<u8>::empty(),
        reaction.send@ == Seq::<Message>::empty(),
        reaction.next == PeerNext::Wait,
        !is_told(reaction.events@, key, true),
        is_told(reaction.events@, key, false) <==> before.received_routes@.contains(key),
        event is TimedOut || event is Tick ==> reaction.error matches Some(Error::Timeout),
        event is Failed ==> reaction.error is None,
{
    handshake::lemma_timeout(before.keepalive_interval);
    lemma_only_removals(before.received_routes@, reaction.events@, key);
}

/// A tick of the keepalive timer has a KEEPALIVE sent, as long as the server was not silent for
/// more than two and a half intervals.
pub proof fn lemma_tick(
    before: &PeerState,
    after: &PeerState,
    silent_nanos: u128,
    subscriptions: Set<Vni>,
    announced: Set<(Vni, Destination, NextHop)>,
    reaction: PeerReaction,
)
    requires
        before.state == ConnectionState::Established,
        stepped(
            before,
            after,
            PeerEvent::Tick(silent_nanos),
            subscriptions,
            announced,
            reaction,
        ),
        2 * silent_nanos <= 5_000_000_000 * before.keepalive_interval,
    ensures
        after.state == ConnectionState::Established,
        after.received_routes@ == before.received_routes@,
        after.msg_buf@ == before.msg_buf@,
        after.keepalive_interval == before.keepalive_interval,
        reaction.send@ == seq![Message::Keepalive],
        reaction.events@ == Seq::<RouteEvent>::empty(),
        reaction.next == PeerNext::Run,
        reaction.error is None,
{
    handshake::lemma_timeout(before.keepalive_interval);
}

/// A connection that could not be opened is tried again: after a while, or at once when a command
/// comes, unless that is a shutdown, which ends the trying for good.
pub proof fn lemma_retry(
    before: &PeerState,
    after: &PeerState,
    event: PeerEvent,
    subscriptions: Set<Vni>,
    announced: Set<(Vni, Destination, NextHop)>,
    reaction: PeerReaction,
)
    requires
        before.expects(event),
        stepped(before, after, event, subscriptions, announced, reaction),
    ensures
        event is NotOpened ==> after.state == ConnectionState::Retry && reaction.next
            == PeerNext::Wait,
        event is Elapsed ==> after.state == ConnectionState::Connecting && reaction.next
            == PeerNext::Connect,
        before.state == ConnectionState::Retry && (event matches PeerEvent::Command(command)
            && command == PeerCommand::Shutdown) ==> after.state == ConnectionState::Closed
            && reaction.next == PeerNext::Stop,
        before.state == ConnectionState::Retry && (event matches PeerEvent::Command(command)
            && command != PeerCommand::Shutdown) ==> after.state == ConnectionState::Connecting
            && reaction.next == PeerNext::Connect,
        event is NotOpened || before.state == ConnectionState::Retry ==> {
            &&& reaction.send@ == Seq::<Message>::empty()
            &&& reaction.events@ == Seq::<RouteEvent>::empty()
            &&& after.received_routes@ == before.received_routes@
        },
{
}

/// The message announces or withdraws a route.
pub open spec fn is_about(message: Message, key: (Vni, Destination, NextHop)) -> bool {
    message matches Message::Update { vni, destination, next_hop, .. } && vni == key.0
        && destination == key.1 && next_hop == key.2
}

/// The last message about a route has the last word: the route is known if that announced it, and
/// if there was none, as it was known before.
pub proof fn lemma_last_word(
    received: Set<(Vni, Destination, NextHop)>,
    messages: Seq<Message>,
    key: (Vni, Destination, NextHop),
    last: int,
)
    requires
        -1 <= last < messages.len(),
        last >= 0 ==> is_about(messages[last], key),
        forall|i: int| last < i < messages.len() ==> !is_about(#[trigger] messages[i], key),
    ensures
        received_after_all(received, messages).contains(key) <==> if last < 0 {
            received.contains(key)
        } else {
            messages[last] matches Message::Update { action, .. } && action == Action::Add
        },
    decreases messages.len(),
{
    if messages.len() > 0 {
        let earlier = messages.drop_last();
        if last < messages.len() - 1 {
            assert forall|i: int| last < i < earlier.len() implies !is_about(
                #[trigger] earlier[i],
                key,
            ) by {
                assert(earlier[i] == messages[i]);
            }
            if last >= 0 {
                assert(earlier[last] == messages[last]);
            }
            lemma_last_word(received, earlier, key, last);
            assert(!is_about(messages[messages.len() - 1], key));
        }
    }
}

/// What a client makes of the updates that it receives on an established connection: of each route
/// the last message has the last word, nothing else changes, and the handler is told just what
/// turned the known routes into those that are known then.
pub proof fn lemma_updates_received(
    before: &PeerState,
    after: &PeerState,
    data: Vec<u8>,
    subscriptions: Set<Vni>,
    announced: Set<(Vni, Destination, NextHop)>,
    reaction: PeerReaction,
    messages: Seq<Message>,
    key: (Vni, Destination, NextHop),
    last: int,
)
    requires
        before.state == ConnectionState::Established,
        stepped(
            before,
            after,
            PeerEvent::Received(data),
            subscriptions,
            announced,
            reaction,
        ),
        data@.len() > 0,
        before.msg_buf@ + data@ == stream::messages_bytes(messages),
        forall|j: int| 0 <= j < messages.len() ==> (#[trigger] messages[j]).wf(),
        -1 <= last < messages.len(),
        last >= 0 ==> is_about(messages[last], key),
        forall|i: int| last < i < messages.len() ==> !is_about(#[trigger] messages[i], key),
    ensures
        after.state == ConnectionState::Established,
        after.msg_buf@ == Seq::<u8>::empty(),
        after.keepalive_interval == before.keepalive_interval,
        reaction.next == PeerNext::Run,
        reaction.error is None,
        reaction.send@ == Seq::<Message>::empty(),
        after.received_routes@.contains(key) <==> if last < 0 {
            before.received_routes@.contains(key)
        } else {
            messages[last] matches Message::Update { action, .. } && action == Action::Add
        },
        messages.len() == 1 && last == 0 ==> {
            let (vni, destination, next_hop) = key;
            let route = Route { destination, next_hop };
            let known = before.received_routes@.contains(key);
            &&& messages[0] == (Message::Update {
                action: Action::Add,
                vni,
                destination,
                next_hop,
            }) ==> reaction.events@ == if known {
                Seq::empty()
            } else {
                seq![RouteEvent::Added { vni, route }]
            }
            &&& messages[0] == (Message::Update {
                action: Action::Remove,
                vni,
                destination,
                next_hop,
            }) ==> reaction.events@ == if known {
                seq![RouteEvent::Removed { vni, route }]
            } else {
                Seq::empty()
            }
        },
{
    let none = Seq::<u8>::empty();
    stream::lemma_read_encoded(messages, none);
    assert(stream::messages_bytes(messages) + none =~= stream::messages_bytes(messages));
    assert(messages + Seq::<Message>::empty() =~= messages);
    lemma_last_word(before.received_routes@, messages, key, last);
    if messages.len() == 1 && last == 0 {
        let known = before.received_routes@;
        let earlier = messages.drop_last();
        assert(earlier =~= Seq::<Message>::empty());
        assert(received_after_all(known, earlier) == known);
        assert(message_events(known, earlier) =~= Seq::<RouteEvent>::empty());
        match message_event(known, messages[0]) {
            Some(event) => {
                assert(reaction.events@ =~= seq![event]);
            },
            None => {},
        }
    }
}

/// Bytes that are no message end an established connection: all that was received is forgotten, and
/// the error says what is wrong. A header of another version or with an unknown type is no message.
pub proof fn lemma_bad_bytes(
    before: &PeerState,
    after: &PeerState,
    data: Vec<u8>,
    subscriptions: Set<Vni>,
    announced: Set<(Vni, Destination, NextHop)>,
    reaction: PeerReaction,
)
    requires
        before.state == ConnectionState::Established,
        stepped(
            before,
            after,
            PeerEvent::Received(data),
            subscriptions,
            announced,
            reaction,
        ),
        before.msg_buf@ == Seq::<u8>::empty(),
        data@.len() >= 4,
        data@[0] != 1 || data@[3] == 0 || data@[3] > 5,
    ensures
        after.state == ConnectionState::Retry,
        after.received_routes@ == Set::<(Vni, Destination, NextHop)>::empty(),
        after.msg_buf@ == Seq::<u8>::empty(),
        reaction.send@ == Seq::<Message>::empty(),
        reaction.next == PeerNext::Wait,
        all_removals(reaction.events@),
        reaction.error matches Some(e) && (stream::read_messages(data@).failure matches Some(failure)
            && e.reports(failure)),
{
    assert(before.msg_buf@ + data@ =~= data@);
    stream::lemma_read_failure(data@);
    assert(message_events(before.received_routes@, Seq::empty()) =~= Seq::<RouteEvent>::empty());
    assert(stream::read_messages(data@).messages =~= Seq::<Message>::empty());
    assert(reaction.events@.skip(0) =~= reaction.events@);
}

/// It makes no difference in which pieces the bytes of a server arrive: the handler is told the
/// same in the same order, and the same routes are known.
pub proof fn lemma_peer_pieces(
    before: &PeerState,
    middle: &PeerState,
    after: &PeerState,
    whole: &PeerState,
    first: Vec<u8>,
    second: Vec<u8>,
    both: Vec<u8>,
    subscriptions: Set<Vni>,
    announced: Set<(Vni, Destination, NextHop)>,
    reaction1: PeerReaction,
    reaction2: PeerReaction,
    reaction: PeerReaction,
)
    requires
        before.state == ConnectionState::Established,
        first@.len() > 0 && second@.len() > 0,
        both@ == first@ + second@,
        stepped(
            before,
            middle,
            PeerEvent::Received(first),
            subscriptions,
            announced,
            reaction1,
        ),
        middle.state == ConnectionState::Established,
        stepped(
            middle,
            after,
            PeerEvent::Received(second),
            subscriptions,
            announced,
            reaction2,
        ),
        after.state == ConnectionState::Established,
        stepped(
            before,
            whole,
            PeerEvent::Received(both),
            subscriptions,
            announced,
            reaction,
        ),
    ensures
        whole.state == ConnectionState::Established,
        reaction.events@ == reaction1.events@ + reaction2.events@,
        whole.received_routes@ == after.received_routes@,
        whole.msg_buf@ == after.msg_buf@,
{
    let s = before.msg_buf@ + first@;
    assert(before.msg_buf@ + both@ =~= s + second@);
    stream::lemma_read_pieces(s, second@);
    lemma_pieces_told(before.received_routes@, s, second@);
}

/// What a client sends for the announcement of a route and for its withdrawal is about the same
/// route: a server that handles both has the route in between, as the client's own, and not
/// afterwards, and all its other routes as before.
pub proof fn lemma_announced_and_withdrawn(
    before: &PeerState,
    middle: &PeerState,
    middle2: &PeerState,
    after: &PeerState,
    subscriptions: Set<Vni>,
    announced: Set<(Vni, Destination, NextHop)>,
    reaction1: PeerReaction,
    reaction2: PeerReaction,
    vni: Vni,
    destination: Destination,
    next_hop: NextHop,
    addr: SocketAddr,
    routing: Routing,
    announced_to: Routing,
    withdrawn_from: Routing,
    reply1: RoutingReply,
    reply2: RoutingReply,
)
    requires
        before.state == ConnectionState::Established,
        stepped(
            before,
            middle,
            PeerEvent::Command(
                PeerCommand::SendUpdate(
                    Message::Update { action: Action::Add, vni, destination, next_hop },
                ),
            ),
            subscriptions,
            announced,
            reaction1,
        ),
        middle2.state == ConnectionState::Established,
        stepped(
            middle2,
            after,
            PeerEvent::Command(
                PeerCommand::SendUpdate(
                    Message::Update { action: Action::Remove, vni, destination, next_hop },
                ),
            ),
            subscriptions,
            announced,
            reaction2,
        ),
        routing.wf(),
        server::spec_request(addr, reaction1.send@[0]) matches PeerRequest::Command(command)
            && server::handled(routing, command, announced_to, reply1),
        server::spec_request(addr, reaction2.send@[0]) matches PeerRequest::Command(command)
            && server::handled(announced_to, command, withdrawn_from, reply2),
    ensures
        reaction1.send@.len() == 1 && reaction2.send@.len() == 1,
        announced_to.routes.contains((vni, destination, next_hop)),
        announced_to.owners[(vni, destination, next_hop)] == addr,
        withdrawn_from.routes == routing.routes.remove((vni, destination, next_hop)),
{
    let add = Message::Update { action: Action::Add, vni, destination, next_hop };
    let remove = Message::Update { action: Action::Remove, vni, destination, next_hop };
    lemma_command_sent(
        before,
        middle,
        PeerCommand::SendUpdate(add),
        subscriptions,
        announced,
        reaction1,
    );
    lemma_command_sent(
        middle2,
        after,
        PeerCommand::SendUpdate(remove),
        subscriptions,
        announced,
        reaction2,
    );
    server::lemma_request_handled(addr, add, routing, announced_to, reply1, addr);
    assert(announced_to.wf()) by {
        assert(announced_to.routes =~= announced_to.owners.dom());
    }
    server::lemma_request_handled(addr, remove, announced_to, withdrawn_from, reply2, addr);
    assert(withdrawn_from.routes =~= routing.routes.remove((vni, destination, next_hop)));
}

/// Each removal of a known route leaves one route less.
pub proof fn lemma_removals_count(
    known: Set<(Vni, Destination, NextHop)>,
    events: Seq<RouteEvent>,
)
    requires
        known.finite(),
        all_removals(events),
        handler::all_news(known, events),
    ensures
        handler::apply_events(known, events).finite(),
        handler::apply_events(known, events).len() + events.len() == known.len(),
    decreases events.len(),
{
    if events.len() > 0 {
        let earlier = events.drop_last();
        assert forall|i: int| 0 <= i < earlier.len() implies #[trigger] earlier[i] is Removed by {
            assert(earlier[i] == events[i]);
        }
        lemma_removals_count(known, earlier);
        assert(events.last() is Removed);
    }
}

/// What removals of different known routes leave.
pub proof fn lemma_removals(known: Set<(Vni, Destination, NextHop)>, events: Seq<RouteEvent>)
    requires
        all_removals(events),
        forall|i: int| 0 <= i < events.len() ==> known.contains((#[trigger] events[i]).key()),
        forall|i: int, j: int|
            0 <= i < j < events.len() ==> (#[trigger] events[i]).key() != (
            #[trigger] events[j]).key(),
    ensures
        handler::all_news(known, events),
        forall|key: (Vni, Destination, NextHop)| #[trigger]
            handler::apply_events(known, events).contains(key) <==> known.contains(key) && forall|
                i: int,
            |
                0 <= i < events.len() ==> (#[trigger] events[i]).key() != key,
    decreases events.len(),
{
    if events.len() > 0 {
        let earlier = events.drop_last();
        assert forall|i: int| 0 <= i < earlier.len() implies earlier[i] == events[i] by {}
        lemma_removals(known, earlier);
        let last = events.last();
        let mid = handler::apply_events(known, earlier);
        assert(mid.contains(last.key()));
        assert forall|key: (Vni, Destination, NextHop)| #[trigger]
            handler::apply_events(known, events).contains(key) <==> known.contains(key) && forall|
                i: int,
            |
                0 <= i < events.len() ==> (#[trigger] events[i]).key() != key by {
            assert(mid.contains(key) <==> known.contains(key) && forall|i: int|
                0 <= i < earlier.len() ==> (#[trigger] earlier[i]).key() != key);
            if mid.contains(key) && key != last.key() {
                assert forall|i: int| 0 <= i < events.len() implies (#[trigger] events[i]).key()
                    != key by {
                    if i < earlier.len() {
                        assert(earlier[i].key() != key);
                    }
                }
            }
            if known.contains(key) && forall|i: int|
                0 <= i < events.len() ==> (#[trigger] events[i]).key() != key {
                assert forall|i: int| 0 <= i < earlier.len() implies (#[trigger] earlier[i]).key()
                    != key by {
                    assert(events[i].key() != key);
                }
                assert(events[events.len() - 1].key() != key);
            }
        }
    }
}

} // verus!
