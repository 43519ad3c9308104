use rustbond::error::Error;
use rustbond::ip::{Ipv4Addr, Ipv6Addr};
use rustbond::pb::{skip_unknown, take_bytes, take_length, take_number, WireType};
use rustbond::types::{Action, Destination, NextHop, NextHopType, Vni};
use rustbond::wire::{
    frame, Message, MessageType, HEADER_SIZE, MAX_PAYLOAD_SIZE, PROTOCOL_VERSION,
};

fn localhost() -> Ipv6Addr {
    Ipv6Addr::new(0, 0, 0, 0, 0, 0, 0, 1)
}

fn protocol_text(result: Result<(Message, usize), Error>) -> String {
    match result {
        Err(Error::Protocol(msg)) => msg,
        _ => panic!("expected Protocol error"),
    }
}

/// A message with the given type and payload.
fn framed(code: u8, payload: &[u8]) -> Vec<u8> {
    let mut buf = vec![1, (payload.len() / 256) as u8, (payload.len() % 256) as u8, code];
    buf.extend_from_slice(payload);
    buf
}

#[test]
fn test_hello_roundtrip() {
    let msg = Message::Hello {
        keepalive_interval: 5,
        is_server: false,
    };

    let encoded = msg.encode().unwrap();
    let (decoded, len) = Message::decode(&encoded).unwrap();

    assert_eq!(len, encoded.len());
    match decoded {
        Message::Hello {
            keepalive_interval,
            is_server,
        } => {
            assert_eq!(keepalive_interval, 5);
            assert!(!is_server);
        }
        _ => panic!("wrong message type"),
    }
}

#[test]
fn test_hello_server() {
    let msg = Message::Hello {
        keepalive_interval: 10,
        is_server: true,
    };

    let encoded = msg.encode().unwrap();
    let (decoded, _) = Message::decode(&encoded).unwrap();

    match decoded {
        Message::Hello {
            keepalive_interval,
            is_server,
        } => {
            assert_eq!(keepalive_interval, 10);
            assert!(is_server);
        }
        _ => panic!("wrong message type"),
    }
}

#[test]
fn test_keepalive_roundtrip() {
    let msg = Message::Keepalive;

    let encoded = msg.encode().unwrap();
    let (decoded, len) = Message::decode(&encoded).unwrap();

    assert_eq!(len, encoded.len());
    assert!(matches!(decoded, Message::Keepalive));
}

#[test]
fn test_keepalive_header() {
    let msg = Message::Keepalive;
    let encoded = msg.encode().unwrap();

    // Keepalive should have 4-byte header with 0 payload
    assert_eq!(encoded.len(), 4);
    assert_eq!(encoded[0], PROTOCOL_VERSION);
    assert_eq!(encoded[1], 0); // Length high byte
    assert_eq!(encoded[2], 0); // Length low byte
    assert_eq!(encoded[3], MessageType::Keepalive.code());
}

#[test]
fn test_subscribe_roundtrip() {
    let msg = Message::Subscribe { vni: Vni(100) };

    let encoded = msg.encode().unwrap();
    let (decoded, len) = Message::decode(&encoded).unwrap();

    assert_eq!(len, encoded.len());
    match decoded {
        Message::Subscribe { vni } => assert_eq!(vni.0, 100),
        _ => panic!("wrong message type"),
    }
}

#[test]
fn test_unsubscribe_roundtrip() {
    let msg = Message::Unsubscribe { vni: Vni(200) };

    let encoded = msg.encode().unwrap();
    let (decoded, len) = Message::decode(&encoded).unwrap();

    assert_eq!(len, encoded.len());
    match decoded {
        Message::Unsubscribe { vni } => assert_eq!(vni.0, 200),
        _ => panic!("wrong message type"),
    }
}

#[test]
fn test_update_roundtrip() {
    let msg = Message::Update {
        action: Action::Add,
        vni: Vni(100),
        destination: Destination::from_ipv4(Ipv4Addr::new(10, 0, 1, 0), 24),
        next_hop: NextHop::standard(Ipv6Addr::new(0x2001, 0xdb8, 0, 0, 0, 0, 0, 0xa)),
    };

    let encoded = msg.encode().unwrap();
    let (decoded, len) = Message::decode(&encoded).unwrap();

    assert_eq!(len, encoded.len());
    match decoded {
        Message::Update {
            action,
            vni,
            destination,
            next_hop,
        } => {
            assert_eq!(action, Action::Add);
            assert_eq!(vni.0, 100);
            assert_eq!(destination.prefix.text(), "10.0.1.0/24");
            assert_eq!(
                next_hop.target_address,
                Ipv6Addr::new(0x2001, 0xdb8, 0, 0, 0, 0, 0, 0xa)
            );
        }
        _ => panic!("wrong message type"),
    }
}

#[test]
fn test_update_remove_action() {
    let msg = Message::Update {
        action: Action::Remove,
        vni: Vni(300),
        destination: Destination::from_ipv4(Ipv4Addr::new(192, 168, 0, 0), 16),
        next_hop: NextHop::standard(localhost()),
    };

    let encoded = msg.encode().unwrap();
    let (decoded, _) = Message::decode(&encoded).unwrap();

    match decoded {
        Message::Update { action, vni, .. } => {
            assert_eq!(action, Action::Remove);
            assert_eq!(vni.0, 300);
        }
        _ => panic!("wrong message type"),
    }
}

#[test]
fn test_update_with_nat_hop() {
    let msg = Message::Update {
        action: Action::Add,
        vni: Vni(100),
        destination: Destination::from_ipv4(Ipv4Addr::new(10, 0, 0, 0), 8),
        next_hop: NextHop::nat_ports(
            Ipv6Addr::new(0x2001, 0xdb8, 0, 0, 0, 0, 0, 1),
            30000,
            40000,
        ),
    };

    let encoded = msg.encode().unwrap();
    let (decoded, _) = Message::decode(&encoded).unwrap();

    match decoded {
        Message::Update { next_hop, .. } => {
            assert_eq!(next_hop.hop_type, NextHopType::Nat);
            assert_eq!(next_hop.nat_port_range_from, 30000);
            assert_eq!(next_hop.nat_port_range_to, 40000);
        }
        _ => panic!("wrong message type"),
    }
}

#[test]
fn test_update_with_lb_hop() {
    let msg = Message::Update {
        action: Action::Add,
        vni: Vni(100),
        destination: Destination::from_ipv4(Ipv4Addr::new(172, 16, 0, 0), 12),
        next_hop: NextHop::load_balancer(Ipv6Addr::new(0x2001, 0xdb8, 0, 0, 0, 0, 0, 2)),
    };

    let encoded = msg.encode().unwrap();
    let (decoded, _) = Message::decode(&encoded).unwrap();

    match decoded {
        Message::Update { next_hop, .. } => {
            assert_eq!(next_hop.hop_type, NextHopType::LoadBalancerTarget);
        }
        _ => panic!("wrong message type"),
    }
}

#[test]
fn test_update_ipv6_destination() {
    let msg = Message::Update {
        action: Action::Add,
        vni: Vni(100),
        destination: Destination::from_ipv6(
            Ipv6Addr::new(0x2001, 0xdb8, 0x1234, 0, 0, 0, 0, 0),
            48,
        ),
        next_hop: NextHop::standard(localhost()),
    };

    let encoded = msg.encode().unwrap();
    let (decoded, _) = Message::decode(&encoded).unwrap();

    match decoded {
        Message::Update { destination, .. } => {
            assert_eq!(destination.prefix.text(), "2001:db8:1234::/48");
        }
        _ => panic!("wrong message type"),
    }
}

#[test]
fn test_update_with_target_vni() {
    let msg = Message::Update {
        action: Action::Add,
        vni: Vni(100),
        destination: Destination::from_ipv4(Ipv4Addr::new(10, 0, 0, 0), 8),
        next_hop: NextHop::standard_with_vni(
            Ipv6Addr::new(0x2001, 0xdb8, 0, 0, 0, 0, 0, 3),
            500,
        ),
    };

    let encoded = msg.encode().unwrap();
    let (decoded, _) = Message::decode(&encoded).unwrap();

    match decoded {
        Message::Update { next_hop, .. } => {
            assert_eq!(next_hop.target_vni, Some(500));
        }
        _ => panic!("wrong message type"),
    }
}

// Error cases

#[test]
fn test_decode_too_short() {
    let buf = vec![1, 0]; // Only 2 bytes
    let result = Message::decode(&buf);
    assert!(result.is_err());
    match result {
        Err(Error::Protocol(msg)) => assert!(msg.contains("too short")),
        _ => panic!("expected Protocol error"),
    }
}

#[test]
fn test_decode_invalid_version() {
    let buf = vec![2, 0, 0, 1]; // Version 2 (invalid)
    let result = Message::decode(&buf);
    assert!(result.is_err());
    match result {
        Err(Error::Protocol(msg)) => assert!(msg.contains("version")),
        _ => panic!("expected Protocol error"),
    }
}

#[test]
fn test_decode_unknown_message_type() {
    let buf = vec![1, 0, 0, 99]; // Message type 99 (invalid)
    let result = Message::decode(&buf);
    assert!(result.is_err());
    match result {
        Err(Error::Protocol(msg)) => assert!(msg.contains("message type")),
        _ => panic!("expected Protocol error"),
    }
}

#[test]
fn test_decode_truncated_payload() {
    // Header says 10 bytes payload, but only 2 bytes provided
    let buf = vec![1, 0, 10, 1, 0, 0];
    let result = Message::decode(&buf);
    assert!(result.is_err());
    match result {
        Err(Error::Protocol(msg)) => assert!(msg.contains("truncated")),
        _ => panic!("expected Protocol error"),
    }
}

#[test]
fn decode_error_texts() {
    assert_eq!(protocol_text(Message::decode(&[])), "message too short");
    assert_eq!(protocol_text(Message::decode(&[2, 0, 0])), "message too short");
    assert_eq!(
        protocol_text(Message::decode(&[2, 0, 0, 99])),
        "unsupported protocol version: 2"
    );
    assert_eq!(
        protocol_text(Message::decode(&[1, 0, 9, 99])),
        "unknown message type: 99"
    );
    assert_eq!(
        protocol_text(Message::decode(&[1, 1, 0, 1, 0])),
        "message truncated"
    );
}

#[test]
fn test_message_type_try_from() {
    assert_eq!(MessageType::try_from(1).unwrap(), MessageType::Hello);
    assert_eq!(MessageType::try_from(2).unwrap(), MessageType::Keepalive);
    assert_eq!(MessageType::try_from(3).unwrap(), MessageType::Subscribe);
    assert_eq!(MessageType::try_from(4).unwrap(), MessageType::Unsubscribe);
    assert_eq!(MessageType::try_from(5).unwrap(), MessageType::Update);
    assert!(MessageType::try_from(0).is_err());
    assert!(MessageType::try_from(6).is_err());
    assert!(MessageType::try_from(255).is_err());
}

#[test]
fn test_message_type_method() {
    assert_eq!(
        Message::Hello {
            keepalive_interval: 5,
            is_server: false
        }
        .message_type(),
        MessageType::Hello
    );
    assert_eq!(Message::Keepalive.message_type(), MessageType::Keepalive);
    assert_eq!(
        Message::Subscribe { vni: Vni(1) }.message_type(),
        MessageType::Subscribe
    );
    assert_eq!(
        Message::Unsubscribe { vni: Vni(1) }.message_type(),
        MessageType::Unsubscribe
    );

    let update = Message::Update {
        action: Action::Add,
        vni: Vni(1),
        destination: Destination::from_ipv4(Ipv4Addr::new(10, 0, 0, 0), 8),
        next_hop: NextHop::standard(localhost()),
    };
    assert_eq!(update.message_type(), MessageType::Update);
}

#[test]
fn test_header_encoding() {
    let msg = Message::Subscribe { vni: Vni(100) };
    let encoded = msg.encode().unwrap();

    // Check header
    assert_eq!(encoded[0], PROTOCOL_VERSION);
    assert_eq!(encoded[3], MessageType::Subscribe.code());

    // Payload length should be in bytes 1-2 (big endian)
    let payload_len = ((encoded[1] as usize) << 8) | (encoded[2] as usize);
    assert_eq!(payload_len, encoded.len() - HEADER_SIZE);
}

#[test]
fn test_decode_multiple_messages_in_buffer() {
    // Encode two messages
    let msg1 = Message::Keepalive;
    let msg2 = Message::Subscribe { vni: Vni(100) };

    let mut buf = msg1.encode().unwrap();
    buf.extend(msg2.encode().unwrap());

    // Decode first message
    let (decoded1, consumed1) = Message::decode(&buf).unwrap();
    assert!(matches!(decoded1, Message::Keepalive));

    // Decode second message from remaining buffer
    let (decoded2, consumed2) = Message::decode(&buf[consumed1..]).unwrap();
    match decoded2 {
        Message::Subscribe { vni } => assert_eq!(vni.0, 100),
        _ => panic!("wrong message type"),
    }

    assert_eq!(consumed1 + consumed2, buf.len());
}

#[test]
fn test_large_vni_values() {
    // Test with max VNI value
    let msg = Message::Subscribe {
        vni: Vni(u32::MAX),
    };
    let encoded = msg.encode().unwrap();
    let (decoded, _) = Message::decode(&encoded).unwrap();

    match decoded {
        Message::Subscribe { vni } => assert_eq!(vni.0, u32::MAX),
        _ => panic!("wrong message type"),
    }
}

#[test]
fn test_constants() {
    assert_eq!(PROTOCOL_VERSION, 1);
    assert_eq!(HEADER_SIZE, 4);
    assert_eq!(MAX_PAYLOAD_SIZE, 1188);
}

// Exact bytes

#[test]
fn hello_bytes() {
    let client = Message::Hello {
        keepalive_interval: 5,
        is_server: false,
    };
    assert_eq!(client.encode().unwrap(), vec![1, 0, 2, 1, 0x08, 5]);
    let server = Message::Hello {
        keepalive_interval: 300,
        is_server: true,
    };
    assert_eq!(
        server.encode().unwrap(),
        vec![1, 0, 5, 1, 0x08, 0xac, 0x02, 0x10, 1]
    );
    let zero = Message::Hello {
        keepalive_interval: 0,
        is_server: false,
    };
    assert_eq!(zero.encode().unwrap(), vec![1, 0, 0, 1]);
}

#[test]
fn subscription_bytes() {
    assert_eq!(
        Message::Subscribe { vni: Vni(100) }.encode().unwrap(),
        vec![1, 0, 2, 3, 0x08, 100]
    );
    assert_eq!(
        Message::Unsubscribe { vni: Vni(u32::MAX) }.encode().unwrap(),
        vec![1, 0, 6, 4, 0x08, 0xff, 0xff, 0xff, 0xff, 0x0f]
    );
}

#[test]
fn update_bytes() {
    let msg = Message::Update {
        action: Action::Remove,
        vni: Vni(7),
        destination: Destination::from_ipv4(Ipv4Addr::new(10, 0, 1, 0), 24),
        next_hop: NextHop::nat_ports(localhost(), 1, 300),
    };
    let mut expected = vec![1, 0, 41, 5, 0x08, 1, 0x10, 7];
    expected.extend_from_slice(&[0x1a, 8, 0x12, 4, 10, 0, 1, 0, 0x18, 24]);
    expected.extend_from_slice(&[0x22, 25, 0x0a, 16]);
    expected.extend_from_slice(&[0, 0, 0, 0, 0, 0, 0, 0, 0, 0, 0, 0, 0, 0, 0, 1]);
    expected.extend_from_slice(&[0x18, 1, 0x20, 1, 0x28, 0xac, 0x02]);
    assert_eq!(msg.encode().unwrap(), expected);
    assert_eq!(Message::decode(&expected).unwrap(), (msg, 45));
}

#[test]
fn frame_limits() {
    let largest = frame(MessageType::Update, &vec![7; 1188]).unwrap();
    assert_eq!(largest.len(), 1192);
    assert_eq!(largest[..5], [1, 4, 164, 5, 7]);
    match frame(MessageType::Update, &vec![7; 1189]) {
        Err(Error::Protocol(msg)) => assert_eq!(
            msg,
            "message too long: 1189 bytes > maximum of 1188 bytes"
        ),
        _ => panic!("expected Protocol error"),
    }
}

#[test]
fn decoding_ignores_what_follows() {
    let msg = Message::Update {
        action: Action::Add,
        vni: Vni(100),
        destination: Destination::from_ipv6(Ipv6Addr::new(1, 2, 3, 4, 5, 6, 7, 8), 128),
        next_hop: NextHop::standard_with_vni(localhost(), 1),
    };
    let mut buf = msg.encode().unwrap();
    let len = buf.len();
    buf.extend_from_slice(&[9, 9, 9]);
    assert_eq!(Message::decode(&buf).unwrap(), (msg, len));
}

// Payloads

#[test]
fn payload_is_no_message() {
    // A varint that does not end
    assert!(matches!(
        Message::decode(&framed(1, &[0x08, 0x80])),
        Err(Error::Encoding(_))
    ));
    // A length that exceeds the payload
    assert!(matches!(
        Message::decode(&framed(5, &[0x1a, 5, 0])),
        Err(Error::Encoding(_))
    ));
    // Field number zero
    assert!(matches!(
        Message::decode(&framed(3, &[0x00, 1])),
        Err(Error::Encoding(_))
    ));
    // A field with a wrong wire type
    assert!(matches!(
        Message::decode(&framed(3, &[0x0a, 1, 0])),
        Err(Error::Encoding(_))
    ));
    // An unknown wire type
    assert!(matches!(
        Message::decode(&framed(3, &[0x0f])),
        Err(Error::Encoding(_))
    ));
    // The payload of a keepalive does not matter
    assert_eq!(
        Message::decode(&framed(2, &[0xff])).unwrap(),
        (Message::Keepalive, 5)
    );
}

#[test]
fn unknown_fields_are_skipped() {
    let subscribe = Message::Subscribe { vni: Vni(3) };
    // Field 9 as a varint, as 64 bits, as bytes, as 32 bits, as a group with a field in it
    let payloads: [&[u8]; 5] = [
        &[0x48, 0x80, 0x01, 0x08, 3],
        &[0x49, 1, 2, 3, 4, 5, 6, 7, 8, 0x08, 3],
        &[0x4a, 2, 0xff, 0xff, 0x08, 3],
        &[0x4d, 1, 2, 3, 4, 0x08, 3],
        &[0x4b, 0x08, 77, 0x4c, 0x08, 3],
    ];
    for payload in payloads {
        assert_eq!(Message::decode(&framed(3, payload)).unwrap().0, subscribe);
    }
    // A group that does not end, and an end without a group
    assert!(Message::decode(&framed(3, &[0x4b, 0x08, 77])).is_err());
    assert!(Message::decode(&framed(3, &[0x4c])).is_err());
}

#[test]
fn last_field_counts() {
    assert_eq!(
        Message::decode(&framed(3, &[0x08, 3, 0x08, 4])).unwrap().0,
        Message::Subscribe { vni: Vni(4) }
    );
    // Numbers are cut to 32 bits
    assert_eq!(
        Message::decode(&framed(3, &[0x08, 0x85, 0x80, 0x80, 0x80, 0x10])).unwrap().0,
        Message::Subscribe { vni: Vni(5) }
    );
}

#[test]
fn update_errors() {
    let destination = [0x1a, 8, 0x12, 4, 10, 0, 1, 0, 0x18, 24];
    let mut next_hop = vec![0x22, 18, 0x0a, 16];
    next_hop.extend_from_slice(&[0; 16]);
    let decode = |parts: &[&[u8]]| Message::decode(&framed(5, &parts.concat()));
    assert_eq!(protocol_text(decode(&[&[0x08, 2]])), "invalid action");
    assert_eq!(protocol_text(decode(&[])), "missing destination");
    assert_eq!(protocol_text(decode(&[&destination])), "missing next_hop");
    assert_eq!(
        protocol_text(decode(&[&[0x1a, 3, 0x12, 1, 10], &next_hop])),
        "invalid IPv4 address length"
    );
    assert_eq!(
        protocol_text(decode(&[&[0x1a, 5, 0x08, 1, 0x12, 1, 10], &next_hop])),
        "invalid IPv6 address length"
    );
    assert_eq!(
        protocol_text(decode(&[&[0x1a, 2, 0x08, 2], &next_hop])),
        "invalid IP version"
    );
    assert_eq!(
        protocol_text(decode(&[&destination, &[0x1a, 2, 0x18, 33], &next_hop])),
        "invalid prefix length"
    );
    assert_eq!(
        protocol_text(decode(&[&destination, &[0x22, 3, 0x0a, 1, 1]])),
        "invalid target address length"
    );
    assert_eq!(
        protocol_text(decode(&[&destination, &next_hop, &[0x22, 2, 0x18, 3]])),
        "invalid next hop type"
    );
    assert!(decode(&[&destination, &next_hop]).is_ok());
}

#[test]
fn field_values() {
    // 300 as a varint, and a byte behind it
    let number = [0xac, 0x02, 9];
    assert_eq!(take_number(WireType::Varint, &number), Ok((300, &[9u8][..])));
    let bytes = [2, 7, 8, 9];
    assert_eq!(
        take_length(WireType::LengthDelimited, &bytes),
        Ok((2, &[7u8, 8, 9][..]))
    );
    assert_eq!(
        take_bytes(WireType::LengthDelimited, &bytes),
        Ok((vec![7, 8], &[9u8][..]))
    );
    let behind = |wire_type: WireType, buf: &[u8]| {
        skip_unknown(1, wire_type, buf, false).map(|rest| rest.to_vec())
    };
    assert_eq!(behind(WireType::Varint, &number), Ok(vec![9]));
    assert_eq!(behind(WireType::LengthDelimited, &bytes), Ok(vec![9]));
    assert_eq!(behind(WireType::SixtyFourBit, &[1; 9]), Ok(vec![1]));
    assert_eq!(behind(WireType::ThirtyTwoBit, &[1; 5]), Ok(vec![1]));
    assert_eq!(behind(WireType::StartGroup, &[0x10, 5, 0x0c, 9]), Ok(vec![9]));
}

#[test]
fn field_error_texts() {
    assert_eq!(
        take_number(WireType::LengthDelimited, &[1]).unwrap_err().to_string(),
        "failed to decode Protobuf message: \
         invalid wire type: LengthDelimited (expected Varint)"
    );
    for (wire_type, name) in [
        (WireType::Varint, "Varint"),
        (WireType::SixtyFourBit, "SixtyFourBit"),
        (WireType::StartGroup, "StartGroup"),
        (WireType::EndGroup, "EndGroup"),
        (WireType::ThirtyTwoBit, "ThirtyTwoBit"),
    ] {
        assert_eq!(
            take_bytes(wire_type, &[0]).unwrap_err().to_string(),
            format!(
                "failed to decode Protobuf message: \
                 invalid wire type: {} (expected LengthDelimited)",
                name
            )
        );
    }
    // Eight bytes are called for, one is there
    assert_eq!(
        skip_unknown(1, WireType::SixtyFourBit, &[1], false)
            .unwrap_err()
            .to_string(),
        "failed to decode Protobuf message: buffer underflow"
    );
}

#[test]
fn payload_error_texts() {
    let text = |code: u8, payload: &[u8]| match Message::decode(&framed(code, payload)) {
        Err(Error::Encoding(e)) => e.to_string(),
        _ => panic!("expected Encoding error"),
    };
    let prefix = "failed to decode Protobuf message: ";
    for (code, payload, expected) in [
        (1, &[0x80][..], "invalid varint"),
        (1, &[0x00], "invalid tag value: 0"),
        (1, &[0x0f], "invalid wire type value: 7"),
        (1, &[0x88, 0x80, 0x80, 0x80, 0x10], "invalid key value: 4294967304"),
        (1, &[0x08, 0x80], "Hello.keepalive_interval: invalid varint"),
        (
            1,
            &[0x12, 0],
            "Hello.is_server: invalid wire type: LengthDelimited (expected Varint)",
        ),
        (1, &[0x1a, 1], "buffer underflow"),
        (1, &[0x1c], "unexpected end group tag"),
        (
            3,
            &[0x0d, 0, 0, 0, 0],
            "Subscription.vni: invalid wire type: ThirtyTwoBit (expected Varint)",
        ),
        // The first fault is told
        (1, &[0x0a, 0x12, 0x80], "Hello.keepalive_interval: invalid wire type: \
            LengthDelimited (expected Varint)"),
        (5, &[0x1a, 5, 0], "Update.destination: buffer underflow"),
        (
            5,
            &[0x1a, 2, 0x12, 9],
            "Destination.prefix: Update.destination: buffer underflow",
        ),
        // The prefix ends behind the destination
        (
            5,
            &[0x1a, 2, 0x12, 1, 0],
            "Update.destination: delimited length exceeded",
        ),
        (
            5,
            &[0x22, 2, 0x18, 0x80],
            "NextHop.r#type: Update.next_hop: invalid varint",
        ),
    ] {
        assert_eq!(text(code, payload), format!("{}{}", prefix, expected));
    }
}

#[test]
fn groups_inside_nested_messages() {
    // A group that is unknown to the destination is skipped, one that does not end is an error
    let mut next_hop = vec![0x22, 18, 0x0a, 16];
    next_hop.extend_from_slice(&[0; 16]);
    let fine = [0x1a, 12, 0x12, 4, 10, 0, 1, 0, 0x4b, 0x08, 1, 0x4c, 0x18, 24];
    let (decoded, _) = Message::decode(&framed(5, &[&fine[..], &next_hop].concat())).unwrap();
    match decoded {
        Message::Update { destination, .. } => assert_eq!(destination.text(), "10.0.1.0/24"),
        _ => panic!("wrong message type"),
    }
    let open = [0x1a, 9, 0x12, 4, 10, 0, 1, 0, 0x4b, 0x08, 1];
    assert!(matches!(
        Message::decode(&framed(5, &[&open[..], &next_hop].concat())),
        Err(Error::Encoding(_))
    ));
}

#[test]
fn deeply_nested_groups() {
    // A hundred groups inside each other are skipped, one more is an error
    let nested = |depth: usize| {
        let mut payload = vec![0x4b; depth];
        payload.extend(vec![0x4c; depth]);
        Message::decode(&framed(3, &payload)).is_ok()
    };
    assert!(nested(1));
    assert!(nested(100));
    assert!(!nested(101));
}

#[test]
fn deeply_nested_groups_in_nested_messages() {
    // Inside a nested message one group less is skipped
    let nested = |depth: usize| {
        let mut destination = vec![0x12, 4, 10, 0, 1, 0, 0x18, 24];
        destination.extend(vec![0x4b; depth]);
        destination.extend(vec![0x4c; depth]);
        let mut payload = vec![0x1a];
        let len = destination.len();
        if len < 128 {
            payload.push(len as u8);
        } else {
            payload.extend_from_slice(&[(len % 128 + 128) as u8, (len / 128) as u8]);
        }
        payload.extend(destination);
        payload.extend_from_slice(&[0x22, 18, 0x0a, 16]);
        payload.extend_from_slice(&[0; 16]);
        Message::decode(&framed(5, &payload)).is_ok()
    };
    assert!(nested(1));
    assert!(nested(99));
    assert!(!nested(100));
}
