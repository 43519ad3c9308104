use rustbond::error::Error;
use rustbond::ip::{Ipv4Addr, Ipv6Addr};
use rustbond::stream::{encode_all, needs_more, receive};
use rustbond::types::{Action, Destination, NextHop, Vni};
use rustbond::wire::Message;

fn messages() -> Vec<Message> {
    vec![
        Message::Hello {
            keepalive_interval: 5,
            is_server: true,
        },
        Message::Keepalive,
        Message::Subscribe { vni: Vni(100) },
        Message::Update {
            action: Action::Add,
            vni: Vni(100),
            destination: Destination::from_ipv4(Ipv4Addr::new(10, 0, 1, 0), 24),
            next_hop: NextHop::standard(Ipv6Addr::new(0, 0, 0, 0, 0, 0, 0, 1)),
        },
        Message::Unsubscribe { vni: Vni(100) },
    ]
}

#[test]
fn encoded_messages_are_read_back() {
    let all = messages();
    let bytes = encode_all(&all);
    let lengths: usize = all.iter().map(|m| m.encode().unwrap().len()).sum();
    assert_eq!(bytes.len(), lengths);
    let mut buf = Vec::new();
    let (read, error) = receive(&mut buf, &bytes);
    assert_eq!(read, all);
    assert!(error.is_none());
    assert!(buf.is_empty());
}

#[test]
fn pieces_make_no_difference() {
    let all = messages();
    let bytes = encode_all(&all);
    for size in 1..bytes.len() {
        let mut buf = Vec::new();
        let mut read = Vec::new();
        for piece in bytes.chunks(size) {
            let (more, error) = receive(&mut buf, piece);
            assert!(error.is_none());
            read.extend(more);
        }
        assert_eq!(read, all);
        assert!(buf.is_empty());
    }
}

#[test]
fn incomplete_message_is_kept() {
    let mut bytes = Message::Keepalive.encode().unwrap();
    bytes.extend_from_slice(&[1, 0, 2, 3, 8]);
    let mut buf = Vec::new();
    let (read, error) = receive(&mut buf, &bytes);
    assert_eq!(read, vec![Message::Keepalive]);
    assert!(error.is_none());
    assert_eq!(buf, vec![1, 0, 2, 3, 8]);
    let (read, _) = receive(&mut buf, &[42]);
    assert_eq!(read, vec![Message::Subscribe { vni: Vni(42) }]);
    assert!(buf.is_empty());
}

#[test]
fn bad_bytes_end_the_reading() {
    let mut bytes = Message::Keepalive.encode().unwrap();
    bytes.extend_from_slice(&[1, 0, 0, 77]);
    bytes.extend(Message::Keepalive.encode().unwrap());
    let mut buf = Vec::new();
    let (read, error) = receive(&mut buf, &bytes);
    assert_eq!(read, vec![Message::Keepalive]);
    match error {
        Some(Error::Protocol(text)) => assert_eq!(text, "unknown message type: 77"),
        _ => panic!("expected Protocol error"),
    }
    assert_eq!(buf, vec![1, 0, 0, 77, 1, 0, 0, 2]);
}

#[test]
fn what_needs_more() {
    assert!(needs_more(&[]));
    assert!(needs_more(&[9, 9, 9]));
    assert!(needs_more(&[1, 0, 1, 2]));
    assert!(!needs_more(&[1, 0, 0, 2]));
    assert!(!needs_more(&[2, 0, 1, 2]));
    assert!(!needs_more(&[1, 0, 1, 9]));
}
