use rustbond::error::Error;
use rustbond::ip::{Ipv4Addr, SocketAddr};
use rustbond::server::{PeerRequest, RoutingCommand, ServerConfig};
use rustbond::session::{Session, SessionEvent, SessionNext, SessionPhase, SessionReaction};
use rustbond::types::Vni;
use rustbond::wire::Message;

fn addr() -> SocketAddr {
    SocketAddr::V4(Ipv4Addr::new(127, 0, 0, 1), 4000)
}

fn hello() -> Vec<u8> {
    Message::Hello {
        keepalive_interval: 3,
        is_server: false,
    }
    .encode()
    .unwrap()
}

fn keepalive() -> Vec<u8> {
    Message::Keepalive.encode().unwrap()
}

fn new() -> Session {
    Session::new(ServerConfig::default(), addr())
}

fn established() -> Session {
    let mut session = new();
    session.step(SessionEvent::Received(hello()));
    session.step(SessionEvent::Received(keepalive()));
    session.step(SessionEvent::Greeted);
    session
}

fn is_farewell(reaction: &SessionReaction) -> bool {
    reaction.next == SessionNext::Stop
        && reaction.requests.len() == 1
        && matches!(
            reaction.requests[0],
            PeerRequest::Command(RoutingCommand::PeerDisconnected { .. })
        )
}

fn text(reaction: SessionReaction) -> String {
    match reaction.error {
        Some(Error::Protocol(text)) => text,
        _ => panic!("expected Protocol error"),
    }
}

#[test]
fn establishing_a_session() {
    let mut session = new();
    assert_eq!(session.phase, SessionPhase::AwaitHello);
    let reaction = session.step(SessionEvent::Received(hello()));
    assert_eq!(session.phase, SessionPhase::AwaitKeepalive);
    assert_eq!(session.keepalive_interval, 3);
    assert_eq!(reaction.next, SessionNext::AwaitKeepalive);
    match reaction.requests[..] {
        [PeerRequest::Reply(message)] => assert_eq!(
            message,
            Message::Hello {
                keepalive_interval: 5,
                is_server: true
            }
        ),
        _ => panic!("wrong requests"),
    }
    let reaction = session.step(SessionEvent::Received(keepalive()));
    assert_eq!(session.phase, SessionPhase::Greeting);
    assert_eq!(reaction.next, SessionNext::ReportGreeted);
    assert!(matches!(
        reaction.requests[..],
        [PeerRequest::Reply(Message::Keepalive)]
    ));
    let reaction = session.step(SessionEvent::Greeted);
    assert_eq!(session.phase, SessionPhase::Established);
    assert_eq!(reaction.next, SessionNext::Run);
    match reaction.requests[..] {
        [PeerRequest::Command(RoutingCommand::PeerConnected { addr: who })] => {
            assert_eq!(who, addr())
        }
        _ => panic!("wrong requests"),
    }
}

#[test]
fn handshake_failures() {
    let reaction = new().step(SessionEvent::Received(vec![]));
    assert!(reaction.requests.is_empty());
    assert_eq!(reaction.next, SessionNext::Stop);
    assert_eq!(text(reaction), "expected HELLO");
    assert_eq!(
        text(new().step(SessionEvent::Received(keepalive()))),
        "expected HELLO message"
    );
    let greeted = || {
        let mut session = new();
        session.step(SessionEvent::Received(hello()));
        session
    };
    assert_eq!(
        text(greeted().step(SessionEvent::Received(hello()))),
        "expected KEEPALIVE"
    );
    let reaction = greeted().step(SessionEvent::Received(vec![]));
    assert!(matches!(reaction.error, Some(Error::Closed)));
    assert!(reaction.requests.is_empty());
    let reaction = greeted().step(SessionEvent::TimedOut);
    assert!(matches!(reaction.error, Some(Error::Timeout)));
    assert!(reaction.requests.is_empty());
    let mut session = greeted();
    let reaction = session.step(SessionEvent::Failed);
    assert!(reaction.requests.is_empty() && reaction.error.is_none());
    assert_eq!(session.phase, SessionPhase::Over);
}

#[test]
fn messages_in_a_session() {
    let mut session = established();
    let mut data = keepalive();
    data.extend(Message::Subscribe { vni: Vni(9) }.encode().unwrap());
    data.extend(hello());
    data.extend_from_slice(&[1, 0]);
    let reaction = session.step(SessionEvent::Received(data));
    assert_eq!(reaction.next, SessionNext::Run);
    assert!(matches!(
        reaction.requests[..],
        [
            PeerRequest::Reply(Message::Keepalive),
            PeerRequest::Command(RoutingCommand::Subscribe { vni: Vni(9), .. }),
            PeerRequest::Ignore
        ]
    ));
    assert_eq!(session.msg_buf, vec![1, 0]);
    let reaction = session.step(SessionEvent::Received(vec![0, 2]));
    assert_eq!(reaction.requests.len(), 1);
    assert!(session.msg_buf.is_empty());
    let mut data = keepalive();
    data.extend_from_slice(&[5, 0, 0, 2]);
    let reaction = session.step(SessionEvent::Received(data));
    assert!(matches!(
        reaction.requests[..],
        [
            PeerRequest::Reply(Message::Keepalive),
            PeerRequest::Command(RoutingCommand::PeerDisconnected { .. })
        ]
    ));
    assert_eq!(reaction.next, SessionNext::Stop);
    assert_eq!(text(reaction), "unsupported protocol version: 5");
}

#[test]
fn end_of_a_session() {
    let reaction = established().step(SessionEvent::Received(vec![]));
    assert!(is_farewell(&reaction) && reaction.error.is_none());
    let reaction = established().step(SessionEvent::Shutdown);
    assert!(is_farewell(&reaction) && reaction.error.is_none());
    let reaction = established().step(SessionEvent::Failed);
    assert!(is_farewell(&reaction) && reaction.error.is_none());
    let mut session = established();
    let reaction = session.step(SessionEvent::Idle(7_500_000_000));
    assert!(reaction.requests.is_empty());
    assert_eq!(reaction.next, SessionNext::Run);
    let reaction = session.step(SessionEvent::Idle(7_500_000_001));
    assert!(is_farewell(&reaction));
    assert!(matches!(reaction.error, Some(Error::Timeout)));
}
