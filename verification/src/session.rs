//! Connection of a client, as the server sees it.
//!
//! What happens on a connection is decided here, the sending and receiving is left to the
//! caller.

use vstd::prelude::*;

use crate::error::Error;
use crate::handshake;
use crate::ip::SocketAddr;
use crate::server::{self, PeerRequest, Routing, RoutingCommand, RoutingReply, ServerConfig};
use crate::stream;
use crate::types::{Action, Destination, NextHop};
use crate::wire::Message;

verus! {

/// How far a connection has come.
#[derive(Debug, Clone, Copy, PartialEq, Eq, Structural)]
pub enum SessionPhase {
    /// The client has to send its HELLO.
    AwaitHello,
    /// The client has to send its KEEPALIVE.
    AwaitKeepalive,
    /// The KEEPALIVE of the client is being answered.
    Greeting,
    /// The connection is established, and the client is known to the routing actor.
    Established,
    /// The connection is over.
    Over,
}

/// What happened to a connection.
#[derive(Debug)]
pub enum SessionEvent {
    /// Bytes were received. No bytes mean that the client closed the connection.
    Received(Vec<u8>),
    /// No bytes were received in time.
    TimedOut,
    /// The answer to the KEEPALIVE was sent.
    Greeted,
    /// Sending or receiving failed.
    Failed,
    /// Nothing happened for a while, and the client has been silent for so many nanoseconds.
    Idle(u128),
    /// The server is shut down.
    Shutdown,
}

/// What comes next on a connection, once all that is asked for was done.
#[derive(Debug, Clone, Copy, PartialEq, Eq, Structural)]
pub enum SessionNext {
    /// Wait for bytes, but no longer than the keepalive timeout.
    AwaitKeepalive,
    /// Report that the answer to the KEEPALIVE was sent.
    ReportGreeted,
    /// Wait for bytes, for messages from the routing actor, or for the keepalive timeout.
    Run,
    /// Nothing: the connection is over.
    Stop,
}

/// What is to be done on a connection.
#[derive(Debug)]
pub struct SessionReaction {
    /// What is asked for, in order.
    pub requests: Vec<PeerRequest>,
    /// What comes next.
    pub next: SessionNext,
    /// Why the connection is over, if something went wrong.
    pub error: Option<Error>,
}

/// State of the connection of one client.
#[derive(Debug)]
pub struct Session {
    /// The configuration of the server.
    pub config: ServerConfig,
    /// The address of the client.
    pub addr: SocketAddr,
    /// How far the connection has come.
    pub phase: SessionPhase,
    /// Bytes that were received and make no message yet.
    pub msg_buf: Vec<u8>,
    /// Keepalive interval in seconds that was agreed on.
    pub keepalive_interval: u32,
}

/// What some messages from a client ask for.
pub open spec fn requests_of(addr: SocketAddr, messages: Seq<Message>) -> Seq<PeerRequest> {
    messages.map_values(|message: Message| server::spec_request(addr, message))
}

impl Session {
    /// The clean-up that is due when the connection ends: a client that the routing actor knows
    /// is signed off.
    pub open spec fn farewell(&self) -> Seq<PeerRequest> {
        if self.phase == SessionPhase::Established {
            seq![PeerRequest::Command(RoutingCommand::PeerDisconnected { addr: self.addr })]
        } else {
            Seq::empty()
        }
    }

    /// The server and the client are the same.
    pub open spec fn same_ends(&self, other: &Session) -> bool {
        self.config == other.config && self.addr == other.addr
    }

    /// The event can happen in the phase of the connection.
    pub open spec fn expects(&self, event: SessionEvent) -> bool {
        match event {
            SessionEvent::Received(_) => self.phase == SessionPhase::AwaitHello || self.phase
                == SessionPhase::AwaitKeepalive || self.phase == SessionPhase::Established,
            SessionEvent::TimedOut => self.phase == SessionPhase::AwaitKeepalive,
            SessionEvent::Greeted => self.phase == SessionPhase::Greeting,
            SessionEvent::Failed => self.phase != SessionPhase::Over,
            SessionEvent::Idle(_) | SessionEvent::Shutdown => self.phase
                == SessionPhase::Established,
        }
    }

    /// Starts with a connection that was accepted. The first bytes are to be waited for.
    pub fn new(config: ServerConfig, addr: SocketAddr) -> (r: Self)
        ensures
            r.config == config,
            r.addr == addr,
            r.phase == SessionPhase::AwaitHello,
            r.msg_buf@ == Seq::<u8>::empty(),
            r.keepalive_interval == config.keepalive_interval,
    {
        Self {
            config,
            addr,
            phase: SessionPhase::AwaitHello,
            msg_buf: Vec::new(),
            keepalive_interval: config.keepalive_interval,
        }
    }

    /// Ends the connection.
    fn end(&mut self, requests: Vec<PeerRequest>, error: Option<Error>) -> (r: SessionReaction)
        ensures
            final(self).same_ends(old(self)),
            final(self).phase == SessionPhase::Over,
            final(self).msg_buf@ == old(self).msg_buf@,
            final(self).keepalive_interval == old(self).keepalive_interval,
            r.requests@ == requests@ + old(self).farewell(),
            r.next == SessionNext::Stop,
            r.error == error,
    {
        let mut requests = requests;
        if self.phase == SessionPhase::Established {
            requests.push(
                PeerRequest::Command(RoutingCommand::PeerDisconnected { addr: self.addr }),
            );
        }
        self.phase = SessionPhase::Over;
        SessionReaction { requests, next: SessionNext::Stop, error }
    }

    /// Takes in bytes from the client.
    fn step_received(&mut self, data: &Vec<u8>) -> (r: SessionReaction)
        requires
            old(self).expects(SessionEvent::Received(*data)),
        ensures
            final(self).same_ends(old(self)),
            received_step(old(self), final(self), data@, r),
    {
        let mut requests: Vec<PeerRequest> = Vec::new();
        if self.phase == SessionPhase::AwaitHello {
            match server::accept_hello(&self.config, data.as_slice()) {
                Ok((hello, interval)) => {
                    self.phase = SessionPhase::AwaitKeepalive;
                    self.keepalive_interval = interval;
                    requests.push(PeerRequest::Reply(hello));
                    SessionReaction { requests, next: SessionNext::AwaitKeepalive, error: None }
                },
                Err(e) => {
                    let r = self.end(requests, Some(e));
                    assert(r.requests@ =~= Seq::<PeerRequest>::empty());
                    r
                },
            }
        } else if self.phase == SessionPhase::AwaitKeepalive {
            match server::accept_keepalive(data.as_slice()) {
                Ok(keepalive) => {
                    self.phase = SessionPhase::Greeting;
                    requests.push(PeerRequest::Reply(keepalive));
                    SessionReaction { requests, next: SessionNext::ReportGreeted, error: None }
                },
                Err(e) => {
                    let r = self.end(requests, Some(e));
                    assert(r.requests@ =~= Seq::<PeerRequest>::empty());
                    r
                },
            }
        } else if data.len() == 0 {
            let r = self.end(requests, None);
            assert(r.requests@ =~= old(self).farewell());
            r
        } else {
            let (messages, error) = stream::receive(&mut self.msg_buf, data.as_slice());
            for i in 0..messages.len()
                invariant
                    self.same_ends(old(self)),
                    requests@ == requests_of(self.addr, messages@.take(i as int)),
            {
                requests.push(server::handle_message(self.addr, messages[i]));
                assert(requests@ =~= requests_of(self.addr, messages@.take(i + 1)));
            }
            assert(messages@.take(messages@.len() as int) =~= messages@);
            match error {
                None => SessionReaction { requests, next: SessionNext::Run, error: None },
                Some(e) => self.end(requests, Some(e)),
            }
        }
    }

    /// Takes in what happened to the connection, and returns what is to be done.
    pub fn step(&mut self, event: SessionEvent) -> (r: SessionReaction)
        requires
            old(self).expects(event),
        ensures
            final(self).same_ends(old(self)),
            session_stepped(old(self), final(self), event, r),
    {
        let mut requests: Vec<PeerRequest> = Vec::new();
        match event {
            SessionEvent::Received(data) => self.step_received(&data),
            SessionEvent::TimedOut => {
                let r = self.end(requests, Some(Error::Timeout));
                assert(r.requests@ =~= Seq::<PeerRequest>::empty());
                r
            },
            SessionEvent::Greeted => {
                self.phase = SessionPhase::Established;
                self.msg_buf = Vec::new();
                requests.push(
                    PeerRequest::Command(RoutingCommand::PeerConnected { addr: self.addr }),
                );
                SessionReaction { requests, next: SessionNext::Run, error: None }
            },
            SessionEvent::Failed => {
                let r = self.end(requests, None);
                assert(r.requests@ =~= old(self).farewell());
                r
            },
            SessionEvent::Idle(silent_nanos) => {
                if handshake::is_timed_out(self.keepalive_interval, silent_nanos) {
                    let r = self.end(requests, Some(Error::Timeout));
                    assert(r.requests@ =~= old(self).farewell());
                    r
                } else {
                    SessionReaction { requests, next: SessionNext::Run, error: None }
                }
            },
            SessionEvent::Shutdown => {
                let r = self.end(requests, None);
                assert(r.requests@ =~= old(self).farewell());
                r
            },
        }
    }
}

/// What bytes from the client do to a connection: the first must be a HELLO, which is answered
/// with one; the next must be a KEEPALIVE, which is answered with one; all further ones are
/// messages.
pub open spec fn received_step(
    before: &Session,
    after: &Session,
    data: Seq<u8>,
    reaction: SessionReaction,
) -> bool {
    if before.phase == SessionPhase::AwaitHello {
        match handshake::spec_read_hello(data) {
            Ok(Some((interval, _))) => {
                &&& after.phase == SessionPhase::AwaitKeepalive
                &&& after.msg_buf@ == before.msg_buf@
                &&& after.keepalive_interval == handshake::spec_negotiate(
                    before.config.keepalive_interval,
                    interval,
                )
                &&& reaction.requests@ == seq![
                    PeerRequest::Reply(
                        Message::Hello {
                            keepalive_interval: before.config.keepalive_interval,
                            is_server: true,
                        },
                    ),
                ]
                &&& reaction.next == SessionNext::AwaitKeepalive
                &&& reaction.error is None
            },
            Ok(None) => {
                &&& is_over(after, reaction, before.farewell())
                &&& reaction.error matches Some(e) && e.is_protocol("expected HELLO"@)
            },
            Err(failure) => {
                &&& is_over(after, reaction, before.farewell())
                &&& reaction.error matches Some(e) && e.reports(failure)
            },
        }
    } else if before.phase == SessionPhase::AwaitKeepalive {
        if data.len() == 0 {
            &&& is_over(after, reaction, before.farewell())
            &&& reaction.error matches Some(Error::Closed)
        } else {
            match Message::spec_decode(data) {
                Ok((message, _)) => if message == Message::Keepalive {
                    &&& after.phase == SessionPhase::Greeting
                    &&& after.msg_buf@ == before.msg_buf@
                    &&& after.keepalive_interval == before.keepalive_interval
                    &&& reaction.requests@ == seq![PeerRequest::Reply(Message::Keepalive)]
                    &&& reaction.next == SessionNext::ReportGreeted
                    &&& reaction.error is None
                } else {
                    &&& is_over(after, reaction, before.farewell())
                    &&& reaction.error matches Some(e) && e.is_protocol("expected KEEPALIVE"@)
                },
                Err(failure) => {
                    &&& is_over(after, reaction, before.farewell())
                    &&& reaction.error matches Some(e) && e.reports(failure)
                },
            }
        }
    } else if data.len() == 0 {
        &&& is_over(after, reaction, before.farewell())
        &&& reaction.error is None
    } else {
        let reading = stream::read_messages(before.msg_buf@ + data);
        let requests = requests_of(before.addr, reading.messages);
        match reading.failure {
            None => {
                &&& after.phase == before.phase
                &&& after.msg_buf@ == reading.rest
                &&& after.keepalive_interval == before.keepalive_interval
                &&& reaction.requests@ == requests
                &&& reaction.next == SessionNext::Run
                &&& reaction.error is None
            },
            Some(failure) => {
                &&& is_over(after, reaction, requests + before.farewell())
                &&& reaction.error matches Some(e) && e.reports(failure)
            },
        }
    }
}

/// The connection is over, and what is left to be done is given.
pub open spec fn is_over(
    after: &Session,
    reaction: SessionReaction,
    requests: Seq<PeerRequest>,
) -> bool {
    &&& after.phase == SessionPhase::Over
    &&& reaction.requests@ == requests
    &&& reaction.next == SessionNext::Stop
}

/// What an event does to a connection, and what is to be done then.
pub open spec fn session_stepped(
    before: &Session,
    after: &Session,
    event: SessionEvent,
    reaction: SessionReaction,
) -> bool {
    match event {
        SessionEvent::Received(data) => received_step(before, after, data@, reaction),
        SessionEvent::TimedOut => {
            &&& is_over(after, reaction, Seq::empty())
            &&& reaction.error matches Some(Error::Timeout)
        },
        SessionEvent::Greeted => {
            &&& after.phase == SessionPhase::Established
            &&& after.msg_buf@ == Seq::<u8>::empty()
            &&& after.keepalive_interval == before.keepalive_interval
            &&& reaction.requests@ == seq![
                PeerRequest::Command(RoutingCommand::PeerConnected { addr: before.addr }),
            ]
            &&& reaction.next == SessionNext::Run
            &&& reaction.error is None
        },
        SessionEvent::Failed => {
            &&& is_over(after, reaction, before.farewell())
            &&& reaction.error is None
        },
        SessionEvent::Idle(silent_nanos) => if silent_nanos > handshake::spec_timeout_nanos(
            before.keepalive_interval,
        ) {
            &&& is_over(after, reaction, before.farewell())
            &&& reaction.error matches Some(Error::Timeout)
        } else {
            &&& after.phase == before.phase
            &&& after.msg_buf@ == before.msg_buf@
            &&& after.keepalive_interval == before.keepalive_interval
            &&& reaction.requests@ == Seq::<PeerRequest>::empty()
            &&& reaction.next == SessionNext::Run
            &&& reaction.error is None
        },
        SessionEvent::Shutdown => {
            &&& is_over(after, reaction, before.farewell())
            &&& reaction.error is None
        },
    }
}

/// The routing actor is told of a client when its connection gets established, and told that the
/// client is gone when the connection, once established, is over: each exactly then.
pub proof fn lemma_signed_on_and_off(
    before: &Session,
    after: &Session,
    event: SessionEvent,
    reaction: SessionReaction,
)
    requires
        before.expects(event),
        session_stepped(before, after, event, reaction),
    ensures
        reaction.requests@.contains(
            PeerRequest::Command(RoutingCommand::PeerConnected { addr: before.addr }),
        ) <==> before.phase != SessionPhase::Established && after.phase
            == SessionPhase::Established,
        reaction.requests@.contains(
            PeerRequest::Command(RoutingCommand::PeerDisconnected { addr: before.addr }),
        ) <==> before.phase == SessionPhase::Established && after.phase == SessionPhase::Over,
{
    let on = PeerRequest::Command(RoutingCommand::PeerConnected { addr: before.addr });
    let off = PeerRequest::Command(RoutingCommand::PeerDisconnected { addr: before.addr });
    let asked = reaction.requests@;
    if before.phase == SessionPhase::Established {
        match event {
            SessionEvent::Received(data) => {
                if data@.len() > 0 {
                    let reading = stream::read_messages(before.msg_buf@ + data@);
                    let requests = requests_of(before.addr, reading.messages);
                    assert forall|i: int| 0 <= i < requests.len() implies requests[i] != on
                        && requests[i] != off by {
                        assert(requests[i] == server::spec_request(
                            before.addr,
                            reading.messages[i],
                        ));
                    }
                    if reading.failure is Some {
                        assert(asked[requests.len() as int] == off);
                    }
                } else {
                    assert(asked[0] == off);
                }
            },
            SessionEvent::Idle(_) => {
                if asked.len() > 0 {
                    assert(asked[0] == off);
                }
            },
            _ => {
                assert(asked[0] == off);
            },
        }
    } else {
        match event {
            SessionEvent::Greeted => {
                assert(asked[0] == on);
            },
            _ => {},
        }
    }
}

/// A session keeps its client and the configuration of the server.
pub proof fn lemma_same_ends(one: &Session, other: &Session)
    ensures
        one.same_ends(other) ==> one.addr == other.addr && one.config == other.config,
        one.addr == other.addr && one.config == other.config ==> one.same_ends(other),
{
}

/// What becomes of the messages that a client sends on an established connection. Each gets its
/// own request, in order. An update is told to the others as it is, and the very route that it
/// names is there after an announcement and gone after a withdrawal; a subscription and its end are
/// those of the client for the VNI that it names; a KEEPALIVE is answered with one.
pub proof fn lemma_messages_served(
    before: &Session,
    after: &Session,
    data: Vec<u8>,
    reaction: SessionReaction,
    messages: Seq<Message>,
    i: int,
    routing: Routing,
    routed: Routing,
    reply: RoutingReply,
    peer: SocketAddr,
)
    requires
        before.phase == SessionPhase::Established,
        session_stepped(before, after, SessionEvent::Received(data), reaction),
        data@.len() > 0,
        before.msg_buf@ + data@ == stream::messages_bytes(messages),
        forall|j: int| 0 <= j < messages.len() ==> (#[trigger] messages[j]).wf(),
        0 <= i < messages.len(),
        routing.wf(),
        reaction.requests@[i] matches PeerRequest::Command(command) ==> server::handled(
            routing,
            command,
            routed,
            reply,
        ),
    ensures
        after.phase == SessionPhase::Established,
        after.msg_buf@ == Seq::<u8>::empty(),
        reaction.next == SessionNext::Run,
        reaction.error is None,
        reaction.requests@.len() == messages.len(),
        match messages[i] {
            Message::Update { action, vni, destination, next_hop } => {
                let key = (vni, destination, next_hop);
                &&& reaction.requests@[i] is Command
                &&& forall|m: Message| #[trigger]
                    server::is_told(reply, peer, m) <==> m == messages[i]
                        && routing.peers.contains(peer) && routing.subscriptions.contains(
                        (vni, peer),
                    ) && peer != before.addr
                &&& action == Action::Add ==> routed.routes == routing.routes.insert(key)
                    && routed.owners == routing.owners.insert(key, before.addr)
                &&& action == Action::Remove ==> routed.routes == routing.routes.remove(key)
                    && routed.owners == routing.owners.remove(key)
                &&& routed.subscriptions == routing.subscriptions
                &&& routed.peers == routing.peers
            },
            Message::Subscribe { vni } => {
                &&& reaction.requests@[i] is Command
                &&& routed.subscriptions == routing.subscriptions.insert((vni, before.addr))
                &&& routed.routes == routing.routes && routed.owners == routing.owners
                &&& routed.peers == routing.peers
                &&& reply matches RoutingReply::Routes(routes) && (forall|
                    d: Destination,
                    h: NextHop,
                | #[trigger]
                    routes@.contains((d, h)) <==> routing.routes.contains((vni, d, h)))
            },
            Message::Unsubscribe { vni } => {
                &&& reaction.requests@[i] is Command
                &&& routed.subscriptions == routing.subscriptions.remove((vni, before.addr))
                &&& routed.routes == routing.routes && routed.owners == routing.owners
                &&& routed.peers == routing.peers
                &&& reply is Done
            },
            Message::Keepalive => reaction.requests@[i] == PeerRequest::Reply(Message::Keepalive),
            Message::Hello { .. } => reaction.requests@[i] is Ignore,
        },
{
    let none = Seq::<u8>::empty();
    stream::lemma_read_encoded(messages, none);
    assert(stream::messages_bytes(messages) + none =~= stream::messages_bytes(messages));
    assert(messages + Seq::<Message>::empty() =~= messages);
    server::lemma_request_handled(before.addr, messages[i], routing, routed, reply, peer);
}

/// It makes no difference in which pieces the bytes of a client arrive: the same is asked for, in
/// the same order, and the same bytes are kept.
pub proof fn lemma_session_pieces(
    before: &Session,
    middle: &Session,
    after: &Session,
    whole: &Session,
    first: Vec<u8>,
    second: Vec<u8>,
    both: Vec<u8>,
    reaction1: SessionReaction,
    reaction2: SessionReaction,
    reaction: SessionReaction,
)
    requires
        before.phase == SessionPhase::Established,
        first@.len() > 0 && second@.len() > 0,
        both@ == first@ + second@,
        middle.addr == before.addr,
        session_stepped(before, middle, SessionEvent::Received(first), reaction1),
        middle.phase == SessionPhase::Established,
        session_stepped(middle, after, SessionEvent::Received(second), reaction2),
        session_stepped(before, whole, SessionEvent::Received(both), reaction),
    ensures
        reaction.requests@ == reaction1.requests@ + reaction2.requests@,
        reaction.next == reaction2.next,
        reaction.error is Some <==> reaction2.error is Some,
        whole.phase == after.phase,
        whole.phase == SessionPhase::Established ==> whole.msg_buf@ == after.msg_buf@,
{
    let s = before.msg_buf@ + first@;
    let t = second@;
    assert(before.msg_buf@ + both@ =~= s + t);
    stream::lemma_read_pieces(s, t);
    let early = stream::read_messages(s).messages;
    let late = stream::read_messages(middle.msg_buf@ + t).messages;
    assert(requests_of(before.addr, early + late) =~= requests_of(before.addr, early)
        + requests_of(before.addr, late));
    assert(reaction.requests@ =~= reaction1.requests@ + reaction2.requests@);
}

/// The handshake, as the server sees it: a HELLO is answered with one that carries the interval of
/// the server, and the smaller interval is agreed on; a KEEPALIVE is answered with one, and once
/// the answer was sent, the connection is established and the client is signed on.
pub proof fn lemma_session_handshake(
    before: &Session,
    after: &Session,
    event: SessionEvent,
    reaction: SessionReaction,
    interval: u32,
    is_server: bool,
)
    requires
        before.expects(event),
        session_stepped(before, after, event, reaction),
    ensures
        before.phase == SessionPhase::AwaitHello && (event matches SessionEvent::Received(data)
            && data@ == (Message::Hello { keepalive_interval: interval, is_server }).bytes()) ==> {
            &&& after.phase == SessionPhase::AwaitKeepalive
            &&& after.keepalive_interval <= interval
            &&& after.keepalive_interval <= before.config.keepalive_interval
            &&& after.keepalive_interval == interval || after.keepalive_interval
                == before.config.keepalive_interval
            &&& reaction.requests@ == seq![
                PeerRequest::Reply(
                    Message::Hello {
                        keepalive_interval: before.config.keepalive_interval,
                        is_server: true,
                    },
                ),
            ]
            &&& reaction.next == SessionNext::AwaitKeepalive
            &&& reaction.error is None
        },
        before.phase == SessionPhase::AwaitKeepalive && (event matches SessionEvent::Received(data)
            && data@ == Message::Keepalive.bytes()) ==> {
            &&& after.phase == SessionPhase::Greeting
            &&& after.keepalive_interval == before.keepalive_interval
            &&& reaction.requests@ == seq![PeerRequest::Reply(Message::Keepalive)]
            &&& reaction.next == SessionNext::ReportGreeted
            &&& reaction.error is None
        },
        event is Greeted ==> {
            &&& after.phase == SessionPhase::Established
            &&& after.keepalive_interval == before.keepalive_interval
            &&& after.msg_buf@ == Seq::<u8>::empty()
            &&& reaction.requests@ == seq![
                PeerRequest::Command(RoutingCommand::PeerConnected { addr: before.addr }),
            ]
            &&& reaction.next == SessionNext::Run
            &&& reaction.error is None
        },
{
    let none = Seq::<u8>::empty();
    let hello = Message::Hello { keepalive_interval: interval, is_server };
    handshake::lemma_read_hello(hello, none, none);
    assert(hello.bytes() + none =~= hello.bytes());
    Message::Keepalive.lemma_round_trip(none);
    assert(Message::Keepalive.bytes() + none =~= Message::Keepalive.bytes());
    handshake::lemma_negotiate(before.config.keepalive_interval, interval);
}

/// During the handshake, any other message than the one that is due ends the connection with an
/// error, and so does the end of the bytes; nothing is asked for then.
pub proof fn lemma_session_refuses(
    before: &Session,
    after: &Session,
    data: Vec<u8>,
    reaction: SessionReaction,
    message: Message,
)
    requires
        before.phase == SessionPhase::AwaitHello || before.phase == SessionPhase::AwaitKeepalive,
        session_stepped(before, after, SessionEvent::Received(data), reaction),
        message.wf(),
        data@ == Seq::<u8>::empty() || data@ == message.bytes(),
        before.phase == SessionPhase::AwaitHello && data@.len() > 0 ==> !(message is Hello),
        before.phase == SessionPhase::AwaitKeepalive && data@.len() > 0 ==> !(message is Keepalive),
    ensures
        after.phase == SessionPhase::Over,
        reaction.requests@ == Seq::<PeerRequest>::empty(),
        reaction.next == SessionNext::Stop,
        reaction.error is Some,
{
    let none = Seq::<u8>::empty();
    handshake::lemma_read_hello(message, none, none);
    message.lemma_round_trip(none);
    assert(message.bytes() + none =~= message.bytes());
}

/// What ends a connection: a failure, a shutdown, the end of the bytes, or a client that does not
/// answer in time or has been silent for more than two and a half intervals. A client that was not
/// silent for so long stays.
pub proof fn lemma_session_ends(
    before: &Session,
    after: &Session,
    event: SessionEvent,
    reaction: SessionReaction,
)
    requires
        before.expects(event),
        session_stepped(before, after, event, reaction),
    ensures
        event is Failed || event is Shutdown || event is TimedOut || (
        event matches SessionEvent::Received(data) && data@.len() == 0) ==> after.phase
            == SessionPhase::Over && reaction.next == SessionNext::Stop,
        event matches SessionEvent::Idle(silent_nanos) ==> if 2 * silent_nanos > 5_000_000_000
            * before.keepalive_interval {
            &&& after.phase == SessionPhase::Over
            &&& reaction.next == SessionNext::Stop
            &&& reaction.error matches Some(Error::Timeout)
        } else {
            &&& after.phase == SessionPhase::Established
            &&& after.msg_buf@ == before.msg_buf@
            &&& after.keepalive_interval == before.keepalive_interval
            &&& reaction.requests@ == Seq::<PeerRequest>::empty()
            &&& reaction.next == SessionNext::Run
            &&& reaction.error is None
        },
        event is TimedOut ==> reaction.error matches Some(Error::Timeout),
        event is Failed || event is Shutdown ==> reaction.error is None,
        after.phase == SessionPhase::Over && before.phase == SessionPhase::Established
            ==> reaction.requests@.len() > 0 && reaction.requests@.last() == PeerRequest::Command(
            RoutingCommand::PeerDisconnected { addr: before.addr },
        ),
{
    handshake::lemma_timeout(before.keepalive_interval);
}

} // verus!
