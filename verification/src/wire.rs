//! Wire format of the MetalBond protocol.
//!
//! A message is a header of four bytes followed by a Protobuf payload:
//!
//! ```text
//!  0                   1                   2                   3
//!  0 1 2 3 4 5 6 7 8 9 0 1 2 3 4 5 6 7 8 9 0 1 2 3 4 5 6 7 8 9 0 1
//! +-+-+-+-+-+-+-+-+-+-+-+-+-+-+-+-+-+-+-+-+-+-+-+-+-+-+-+-+-+-+-+-+
//! |    Version    |       Message Length          |  Message Type |
//! +-+-+-+-+-+-+-+-+-+-+-+-+-+-+-+-+-+-+-+-+-+-+-+-+-+-+-+-+-+-+-+-+
//! |                                                               |
//! |                   Protobuf Payload                            |
//! |                   (variable length, max 1188 bytes)           |
//! |                                                               |
//! +-+-+-+-+-+-+-+-+-+-+-+-+-+-+-+-+-+-+-+-+-+-+-+-+-+-+-+-+-+-+-+-+
//! ```

use vstd::prelude::*;
use vstd::slice::slice_subrange;

use crate::error::{Error, Failure};
use crate::ip::{IpNet, lemma_be_bytes_len};
use crate::pb::{lemma_message_field_len, lemma_number_field_len};
use crate::proto;
use crate::text::{decimal, decimal_text};
use crate::types::{Action, Destination, NextHop, Vni};

verus! {

/// Protocol version (must be 1).
pub const PROTOCOL_VERSION: u8 = 1;

/// Header size in bytes.
pub const HEADER_SIZE: usize = 4;

/// Maximum payload size (to avoid IPv6 fragmentation).
pub const MAX_PAYLOAD_SIZE: usize = 1188;

/// Message type identifiers.
#[derive(Debug, Clone, Copy, PartialEq, Eq, Structural)]
pub enum MessageType {
    Hello,
    Keepalive,
    Subscribe,
    Unsubscribe,
    Update,
}

impl MessageType {
    pub open spec fn spec_code(self) -> u8 {
        match self {
            MessageType::Hello => 1,
            MessageType::Keepalive => 2,
            MessageType::Subscribe => 3,
            MessageType::Unsubscribe => 4,
            MessageType::Update => 5,
        }
    }

    pub open spec fn spec_from_code(code: u8) -> Option<MessageType> {
        match code {
            1 => Some(MessageType::Hello),
            2 => Some(MessageType::Keepalive),
            3 => Some(MessageType::Subscribe),
            4 => Some(MessageType::Unsubscribe),
            5 => Some(MessageType::Update),
            _ => None,
        }
    }

    /// The byte that stands for the type in a header.
    pub fn code(self) -> (r: u8)
        ensures
            r == self.spec_code(),
    {
        match self {
            MessageType::Hello => 1,
            MessageType::Keepalive => 2,
            MessageType::Subscribe => 3,
            MessageType::Unsubscribe => 4,
            MessageType::Update => 5,
        }
    }

    /// The type that a byte of a header stands for.
    pub fn try_from(value: u8) -> (r: Result<Self, Error>)
        ensures
            match MessageType::spec_from_code(value) {
                Some(message_type) => r == Ok::<Self, Error>(message_type),
                None => r matches Err(e) && e.is_protocol(
                    "unknown message type: "@ + decimal(value as nat),
                ),
            },
    {
        match value {
            1 => Ok(MessageType::Hello),
            2 => Ok(MessageType::Keepalive),
            3 => Ok(MessageType::Subscribe),
            4 => Ok(MessageType::Unsubscribe),
            5 => Ok(MessageType::Update),
            _ => {
                let mut text = "unknown message type: ".to_owned();
                text.append(decimal_text(value as u64).as_str());
                Err(Error::Protocol(text))
            },
        }
    }
}

/// Each type has its own byte, from one to five, and no other byte stands for a type.
pub proof fn lemma_codes(message_type: MessageType, code: u8)
    ensures
        MessageType::spec_from_code(message_type.spec_code()) == Some(message_type),
        MessageType::spec_from_code(code) is Some <==> 1 <= code <= 5,
        MessageType::spec_from_code(code) matches Some(t) ==> t.spec_code() == code,
        message_type is Hello <==> message_type.spec_code() == 1,
        message_type is Keepalive <==> message_type.spec_code() == 2,
        message_type is Subscribe <==> message_type.spec_code() == 3,
        message_type is Unsubscribe <==> message_type.spec_code() == 4,
        message_type is Update <==> message_type.spec_code() == 5,
{
}

/// A MetalBond message.
#[derive(Debug, Clone, Copy, PartialEq, Eq, Structural)]
pub enum Message {
    /// Hello message for connection handshake.
    Hello { keepalive_interval: u32, is_server: bool },
    /// Keepalive message for liveness detection.
    Keepalive,
    /// Subscribe to a VNI.
    Subscribe { vni: Vni },
    /// Unsubscribe from a VNI.
    Unsubscribe { vni: Vni },
    /// Route update (add or remove).
    Update { action: Action, vni: Vni, destination: Destination, next_hop: NextHop },
}

// ----------------------------------------------------------------------------
// What the bytes of a message are
// ----------------------------------------------------------------------------

/// The header in front of a payload of the given length.
pub open spec fn header(message_type: MessageType, payload_len: nat) -> Seq<u8> {
    seq![
        PROTOCOL_VERSION,
        (payload_len / 256) as u8,
        (payload_len % 256) as u8,
        message_type.spec_code(),
    ]
}

/// What is said of a payload that does not fit into a message.
pub open spec fn too_long(payload_len: nat) -> Seq<char> {
    "message too long: "@ + decimal(payload_len) + " bytes > maximum of "@ + decimal(
        MAX_PAYLOAD_SIZE as nat,
    ) + " bytes"@
}

/// Puts the header in front of a payload.
pub fn frame(message_type: MessageType, payload: &Vec<u8>) -> (r: Result<Vec<u8>, Error>)
    ensures
        payload.len() <= MAX_PAYLOAD_SIZE ==> (r matches Ok(buf) && buf@ == header(
            message_type,
            payload@.len(),
        ) + payload@),
        payload.len() > MAX_PAYLOAD_SIZE ==> (r matches Err(e) && e.is_protocol(
            too_long(payload@.len()),
        )),
{
    let len = payload.len();
    if len > MAX_PAYLOAD_SIZE {
        let mut text = "message too long: ".to_owned();
        text.append(decimal_text(len as u64).as_str());
        text.append(" bytes > maximum of ");
        text.append(decimal_text(MAX_PAYLOAD_SIZE as u64).as_str());
        text.append(" bytes");
        assert(text@ =~= too_long(payload@.len()));
        return Err(Error::Protocol(text));
    }
    let mut buf: Vec<u8> = Vec::new();
    buf.push(PROTOCOL_VERSION);
    buf.push((len / 256) as u8);
    buf.push((len % 256) as u8);
    buf.push(message_type.code());
    buf.extend_from_slice(payload.as_slice());
    assert(buf@ =~= header(message_type, payload@.len()) + payload@);
    Ok(buf)
}

impl Message {
    pub open spec fn spec_message_type(self) -> MessageType {
        match self {
            Message::Hello { .. } => MessageType::Hello,
            Message::Keepalive => MessageType::Keepalive,
            Message::Subscribe { .. } => MessageType::Subscribe,
            Message::Unsubscribe { .. } => MessageType::Unsubscribe,
            Message::Update { .. } => MessageType::Update,
        }
    }

    /// The update as a message of the schema.
    pub open spec fn update_view(
        action: Action,
        vni: Vni,
        destination: Destination,
        next_hop: NextHop,
    ) -> proto::UpdateView {
        proto::UpdateView {
            action: match action {
                Action::Add => 0,
                Action::Remove => 1,
            },
            vni: vni.0,
            destination: Some(destination.spec_to_proto()),
            next_hop: Some(next_hop.spec_to_proto()),
        }
    }

    /// The payload of the message.
    pub open spec fn payload(self) -> Seq<u8> {
        match self {
            Message::Hello { keepalive_interval, is_server } => (proto::Hello {
                keepalive_interval,
                is_server,
            }).bytes(),
            Message::Keepalive => Seq::empty(),
            Message::Subscribe { vni } => (proto::Subscription { vni: vni.0 }).bytes(),
            Message::Unsubscribe { vni } => (proto::Subscription { vni: vni.0 }).bytes(),
            Message::Update { action, vni, destination, next_hop } => Message::update_view(
                action,
                vni,
                destination,
                next_hop,
            ).bytes(),
        }
    }

    /// The bytes of the message.
    pub open spec fn bytes(self) -> Seq<u8> {
        header(self.spec_message_type(), self.payload().len()) + self.payload()
    }

    /// The message can be told from its bytes: its prefix is valid, and no target VNI is written
    /// as the zero that means none.
    pub open spec fn wf(self) -> bool {
        self matches Message::Update { destination, next_hop, .. } ==> {
            &&& destination.wf()
            &&& next_hop.target_vni != Some(0u32)
        }
    }

    /// The message that a payload holds.
    pub open spec fn spec_decode_payload(message_type: MessageType, payload: Seq<u8>) -> Result<
        Message,
        Failure,
    > {
        match message_type {
            MessageType::Hello => match proto::Hello::from_bytes(payload) {
                Ok(m) => Ok(
                    Message::Hello {
                        keepalive_interval: m.keepalive_interval,
                        is_server: m.is_server,
                    },
                ),
                Err(e) => Err(Failure::Encoding(e)),
            },
            MessageType::Keepalive => Ok(Message::Keepalive),
            MessageType::Subscribe => match proto::Subscription::from_bytes(payload) {
                Ok(m) => Ok(Message::Subscribe { vni: Vni(m.vni) }),
                Err(e) => Err(Failure::Encoding(e)),
            },
            MessageType::Unsubscribe => match proto::Subscription::from_bytes(payload) {
                Ok(m) => Ok(Message::Unsubscribe { vni: Vni(m.vni) }),
                Err(e) => Err(Failure::Encoding(e)),
            },
            MessageType::Update => match proto::UpdateView::from_bytes(payload) {
                Ok(m) => Message::spec_from_update(m),
                Err(e) => Err(Failure::Encoding(e)),
            },
        }
    }

    /// The update that a message of the schema stands for.
    pub open spec fn spec_from_update(m: proto::UpdateView) -> Result<Message, Failure> {
        match proto::Action::spec_from_number(m.action) {
            None => Err(Failure::Protocol("invalid action"@)),
            Some(action) => match m.destination {
                None => Err(Failure::Protocol("missing destination"@)),
                Some(d) => match Destination::spec_try_from(d) {
                    Err(failure) => Err(failure),
                    Ok(destination) => match m.next_hop {
                        None => Err(Failure::Protocol("missing next_hop"@)),
                        Some(h) => match NextHop::spec_try_from(h) {
                            Err(failure) => Err(failure),
                            Ok(next_hop) => Ok(
                                Message::Update {
                                    action: match action {
                                        proto::Action::Add => Action::Add,
                                        proto::Action::Remove => Action::Remove,
                                    },
                                    vni: Vni(m.vni),
                                    destination,
                                    next_hop,
                                },
                            ),
                        },
                    },
                },
            },
        }
    }

    /// How many bytes the message takes whose header stands at the front of `s`.
    pub open spec fn total_len(s: Seq<u8>) -> nat {
        (HEADER_SIZE + s[1] * 256 + s[2]) as nat
    }

    /// The message at the front of some bytes and how many of them it takes.
    pub open spec fn spec_decode(s: Seq<u8>) -> Result<(Message, nat), Failure> {
        if s.len() < HEADER_SIZE {
            Err(Failure::Protocol("message too short"@))
        } else if s[0] != PROTOCOL_VERSION {
            Err(Failure::Protocol("unsupported protocol version: "@ + decimal(s[0] as nat)))
        } else {
            match MessageType::spec_from_code(s[3]) {
                None => Err(Failure::Protocol("unknown message type: "@ + decimal(s[3] as nat))),
                Some(message_type) => {
                    let total = Message::total_len(s);
                    if s.len() < total {
                        Err(Failure::Protocol("message truncated"@))
                    } else {
                        match Message::spec_decode_payload(
                            message_type,
                            s.subrange(HEADER_SIZE as int, total as int),
                        ) {
                            Ok(m) => Ok((m, total)),
                            Err(failure) => Err(failure),
                        }
                    }
                },
            }
        }
    }
}

// ----------------------------------------------------------------------------
// Encoding and decoding
// ----------------------------------------------------------------------------

impl Message {
    /// Returns the message type.
    pub fn message_type(&self) -> (r: MessageType)
        ensures
            r == self.spec_message_type(),
    {
        match self {
            Message::Hello { .. } => MessageType::Hello,
            Message::Keepalive => MessageType::Keepalive,
            Message::Subscribe { .. } => MessageType::Subscribe,
            Message::Unsubscribe { .. } => MessageType::Unsubscribe,
            Message::Update { .. } => MessageType::Update,
        }
    }

    /// Encodes the message to wire format. No message is too long for it.
    pub fn encode(&self) -> (r: Result<Vec<u8>, Error>)
        ensures
            r matches Ok(buf) && buf@ == self.bytes(),
    {
        let payload = self.encode_payload();
        proof {
            self.lemma_payload_len();
        }
        frame(self.message_type(), &payload)
    }

    /// Encodes just the Protobuf payload.
    pub fn encode_payload(&self) -> (r: Vec<u8>)
        ensures
            r@ == self.payload(),
    {
        match self {
            Message::Hello { keepalive_interval, is_server } => {
                let msg = proto::Hello {
                    keepalive_interval: *keepalive_interval,
                    is_server: *is_server,
                };
                msg.encode()
            },
            Message::Keepalive => Vec::new(),
            Message::Subscribe { vni } => {
                let msg = proto::Subscription { vni: vni.0 };
                msg.encode()
            },
            Message::Unsubscribe { vni } => {
                let msg = proto::Subscription { vni: vni.0 };
                msg.encode()
            },
            Message::Update { action, vni, destination, next_hop } => {
                let msg = proto::Update {
                    action: <proto::Action as From<Action>>::from(*action).number(),
                    vni: vni.0,
                    destination: Some(proto::Destination::from(destination)),
                    next_hop: Some(proto::NextHop::from(next_hop)),
                };
                assert(msg@ == Message::update_view(*action, *vni, *destination, *next_hop));
                msg.encode()
            },
        }
    }

    /// Decodes a message from wire format.
    ///
    /// Returns the message and the number of bytes consumed.
    pub fn decode(buf: &[u8]) -> (r: Result<(Self, usize), Error>)
        ensures
            match Message::spec_decode(buf@) {
                Ok((m, total)) => r matches Ok(x) && x.0 == m && x.1 == total,
                Err(failure) => r matches Err(e) && e.reports(failure),
            },
    {
        if buf.len() < HEADER_SIZE {
            return Err(Error::protocol("message too short"));
        }
        let version = buf[0];
        if version != PROTOCOL_VERSION {
            let mut text = "unsupported protocol version: ".to_owned();
            text.append(decimal_text(version as u64).as_str());
            return Err(Error::Protocol(text));
        }
        let payload_len = buf[1] as usize * 256 + buf[2] as usize;
        let msg_type = match MessageType::try_from(buf[3]) {
            Ok(msg_type) => msg_type,
            Err(e) => return Err(e),
        };
        let total_len = HEADER_SIZE + payload_len;
        if buf.len() < total_len {
            return Err(Error::protocol("message truncated"));
        }
        let payload = slice_subrange(buf, HEADER_SIZE, total_len);
        match Self::decode_payload(msg_type, payload) {
            Ok(message) => Ok((message, total_len)),
            Err(e) => Err(e),
        }
    }

    /// Decodes just the Protobuf payload.
    pub fn decode_payload(msg_type: MessageType, payload: &[u8]) -> (r: Result<Self, Error>)
        ensures
            match Message::spec_decode_payload(msg_type, payload@) {
                Ok(m) => r == Ok::<Self, Error>(m),
                Err(failure) => r matches Err(e) && e.reports(failure),
            },
    {
        match msg_type {
            MessageType::Hello => match proto::Hello::decode(payload) {
                Ok(msg) => Ok(
                    Message::Hello {
                        keepalive_interval: msg.keepalive_interval,
                        is_server: msg.is_server,
                    },
                ),
                Err(e) => Err(Error::Encoding(e)),
            },
            MessageType::Keepalive => Ok(Message::Keepalive),
            MessageType::Subscribe => match proto::Subscription::decode(payload) {
                Ok(msg) => Ok(Message::Subscribe { vni: Vni(msg.vni) }),
                Err(e) => Err(Error::Encoding(e)),
            },
            MessageType::Unsubscribe => match proto::Subscription::decode(payload) {
                Ok(msg) => Ok(Message::Unsubscribe { vni: Vni(msg.vni) }),
                Err(e) => Err(Error::Encoding(e)),
            },
            MessageType::Update => match proto::Update::decode(payload) {
                Ok(msg) => Self::from_update(msg),
                Err(e) => Err(Error::Encoding(e)),
            },
        }
    }

    /// Reads an update from a message of the schema.
    fn from_update(msg: proto::Update) -> (r: Result<Self, Error>)
        ensures
            match Message::spec_from_update(msg@) {
                Ok(m) => r == Ok::<Self, Error>(m),
                Err(failure) => r matches Err(e) && e.reports(failure),
            },
    {
        let action = match proto::Action::from_number(msg.action) {
            Some(action) => <Action as From<proto::Action>>::from(action),
            None => return Err(Error::protocol("invalid action")),
        };
        let destination = match msg.destination {
            Some(destination) => match Destination::try_from(destination) {
                Ok(destination) => destination,
                Err(e) => return Err(e),
            },
            None => return Err(Error::protocol("missing destination")),
        };
        let next_hop = match msg.next_hop {
            Some(next_hop) => match NextHop::try_from(next_hop) {
                Ok(next_hop) => next_hop,
                Err(e) => return Err(e),
            },
            None => return Err(Error::protocol("missing next_hop")),
        };
        Ok(Message::Update { action, vni: Vni(msg.vni), destination, next_hop })
    }
}

// ----------------------------------------------------------------------------
// Laws
// ----------------------------------------------------------------------------

impl Message {
    /// Every payload is within the limit.
    pub proof fn lemma_payload_len(self)
        ensures
            self.payload().len() <= MAX_PAYLOAD_SIZE,
    {
        match self {
            Message::Hello { keepalive_interval, is_server } => {
                lemma_number_field_len(1, keepalive_interval as nat);
                lemma_number_field_len(2, 1);
                lemma_number_field_len(2, 0);
            },
            Message::Keepalive => {},
            Message::Subscribe { vni } => {
                lemma_number_field_len(1, vni.0 as nat);
            },
            Message::Unsubscribe { vni } => {
                lemma_number_field_len(1, vni.0 as nat);
            },
            Message::Update { action, vni, destination, next_hop } => {
                let m = Message::update_view(action, vni, destination, next_hop);
                lemma_destination_len(destination);
                lemma_next_hop_len(next_hop);
                lemma_number_field_len(1, proto::int_bits(m.action) as nat);
                lemma_number_field_len(2, m.vni as nat);
                lemma_message_field_len(3, destination.spec_to_proto().bytes());
                lemma_message_field_len(4, next_hop.spec_to_proto().bytes());
            },
        }
    }

    /// Decoding the payload of a message gives the message back.
    proof fn lemma_payload_round_trip(self)
        requires
            self.wf(),
        ensures
            Message::spec_decode_payload(self.spec_message_type(), self.payload()) == Ok::<
                Message,
                Failure,
            >(self),
    {
        match self {
            Message::Hello { keepalive_interval, is_server } => {
                (proto::Hello { keepalive_interval, is_server }).lemma_round_trip();
            },
            Message::Keepalive => {},
            Message::Subscribe { vni } => {
                (proto::Subscription { vni: vni.0 }).lemma_round_trip();
            },
            Message::Unsubscribe { vni } => {
                (proto::Subscription { vni: vni.0 }).lemma_round_trip();
            },
            Message::Update { action, vni, destination, next_hop } => {
                let m = Message::update_view(action, vni, destination, next_hop);
                lemma_destination_len(destination);
                lemma_next_hop_len(next_hop);
                m.lemma_round_trip();
                destination.lemma_proto_round_trip();
                next_hop.lemma_proto_round_trip();
            },
        }
    }

    /// Decoding the bytes of a message gives the message back and takes those bytes, whatever
    /// follows them.
    pub proof fn lemma_round_trip(self, rest: Seq<u8>)
        requires
            self.wf(),
        ensures
            Message::spec_decode(self.bytes() + rest) == Ok::<(Message, nat), Failure>(
                (self, self.bytes().len()),
            ),
    {
        self.lemma_payload_len();
        self.lemma_payload_round_trip();
        let s = self.bytes() + rest;
        let len = self.payload().len();
        assert(s[1] == (len / 256) as u8);
        assert(s[2] == (len % 256) as u8);
        assert(s[3] == self.spec_message_type().spec_code());
        assert(Message::total_len(s) == self.bytes().len());
        assert(s.subrange(4, self.bytes().len() as int) =~= self.payload());
    }

    /// What was decoded does not change when more bytes follow.
    pub proof fn lemma_decode_prefix(s: Seq<u8>, rest: Seq<u8>)
        ensures
            s.len() >= HEADER_SIZE && (s[0] != PROTOCOL_VERSION || MessageType::spec_from_code(
                s[3],
            ) is None || s.len() >= Message::total_len(s)) ==> Message::spec_decode(s + rest)
                == Message::spec_decode(s),
    {
        if s.len() >= HEADER_SIZE {
            let total = Message::total_len(s);
            assert((s + rest)[0] == s[0] && (s + rest)[1] == s[1] && (s + rest)[2] == s[2] && (s
                + rest)[3] == s[3]);
            if s.len() >= total {
                assert((s + rest).subrange(4, total as int) =~= s.subrange(4, total as int));
            }
        }
    }
}

impl Message {
    /// Which messages can be told from their bytes: all but updates with a prefix length that the
    /// address cannot have, or with zero as the target VNI.
    pub proof fn lemma_wf(self)
        ensures
            !(self is Update) ==> self.wf(),
            self matches Message::Update { destination, next_hop, .. } ==> (self.wf() <==> {
                &&& destination.prefix matches IpNet::V4(net) ==> net.prefix_len <= 32
                &&& destination.prefix matches IpNet::V6(net) ==> net.prefix_len <= 128
                &&& next_hop.target_vni != Some(0u32)
            }),
    {
    }

    /// The header of a message: the version, the length of what follows in two bytes, the more
    /// significant one first, and the type.
    pub proof fn lemma_header(self)
        ensures
            self.bytes().len() >= 4,
            self.bytes()[0] == 1,
            self.bytes().len() == 4 + self.bytes()[1] * 256 + self.bytes()[2],
            self is Hello ==> self.bytes()[3] == 1,
            self is Keepalive ==> self.bytes()[3] == 2,
            self is Subscribe ==> self.bytes()[3] == 3,
            self is Unsubscribe ==> self.bytes()[3] == 4,
            self is Update ==> self.bytes()[3] == 5,
            self.bytes().skip(4) == self.payload(),
    {
        self.lemma_payload_len();
        assert(self.bytes().skip(4) =~= self.payload());
    }

    /// What can be decoded: only bytes with a complete header of the known version and a known
    /// type, followed by as many bytes as the header says. The message is of that type and takes
    /// just those bytes.
    pub proof fn lemma_decode_means(s: Seq<u8>)
        ensures
            s.len() < 4 || s[0] != 1 || s[3] == 0 || s[3] > 5 || s.len() < 4 + s[1] * 256 + s[2]
                ==> (Message::spec_decode(s) matches Err(Failure::Protocol(_))),
            Message::spec_decode(s) matches Ok((message, len)) ==> {
                &&& len == 4 + s[1] * 256 + s[2]
                &&& len <= s.len()
                &&& message is Hello <==> s[3] == 1
                &&& message is Keepalive <==> s[3] == 2
                &&& message is Subscribe <==> s[3] == 3
                &&& message is Unsubscribe <==> s[3] == 4
                &&& message is Update <==> s[3] == 5
            },
    {
    }

    /// What is said of bytes that are no message: that they are too few, or else which version or
    /// type they have that is not known, or else that they end too early.
    pub proof fn lemma_decode_errors(s: Seq<u8>)
        ensures
            s.len() < 4 ==> Message::spec_decode(s) == Err::<(Message, nat), Failure>(
                Failure::Protocol("message too short"@),
            ),
            s.len() >= 4 && s[0] != 1 ==> Message::spec_decode(s) == Err::<(Message, nat), Failure>(
                Failure::Protocol("unsupported protocol version: "@ + decimal(s[0] as nat)),
            ),
            s.len() >= 4 && s[0] == 1 && !(1 <= s[3] <= 5) ==> Message::spec_decode(s) == Err::<
                (Message, nat),
                Failure,
            >(Failure::Protocol("unknown message type: "@ + decimal(s[3] as nat))),
            4 <= s.len() < 4 + s[1] * 256 + s[2] && s[0] == 1 && 1 <= s[3] <= 5
                ==> Message::spec_decode(s) == Err::<(Message, nat), Failure>(
                Failure::Protocol("message truncated"@),
            ),
            s.len() >= 4 + s[1] * 256 + s[2] && s.len() >= 4 && s[0] == 1 && s[3] == 2
                ==> Message::spec_decode(s) == Ok::<(Message, nat), Failure>(
                (Message::Keepalive, (4 + s[1] * 256 + s[2]) as nat),
            ),
    {
    }

    /// What is said of an update that cannot be: that its action is not known, or else that its
    /// destination is missing or what is wrong with it, or else the same of its next hop.
    pub proof fn lemma_update_errors(m: proto::UpdateView)
        ensures
            m.action != 0 && m.action != 1 ==> Message::spec_from_update(m) == Err::<
                Message,
                Failure,
            >(Failure::Protocol("invalid action"@)),
            0 <= m.action <= 1 && m.destination is None ==> Message::spec_from_update(m) == Err::<
                Message,
                Failure,
            >(Failure::Protocol("missing destination"@)),
            0 <= m.action <= 1 && (m.destination matches Some(d) && Destination::spec_try_from(
                d,
            ) is Err) ==> (m.destination matches Some(d) && (Destination::spec_try_from(
                d,
            ) matches Err(failure) && Message::spec_from_update(m) == Err::<Message, Failure>(
                failure,
            ))),
            0 <= m.action <= 1 && (m.destination matches Some(d) && Destination::spec_try_from(
                d,
            ) is Ok) && m.next_hop is None ==> Message::spec_from_update(m) == Err::<
                Message,
                Failure,
            >(Failure::Protocol("missing next_hop"@)),
            0 <= m.action <= 1 && (m.destination matches Some(d) && Destination::spec_try_from(
                d,
            ) is Ok) && (m.next_hop matches Some(h) && NextHop::spec_try_from(h) is Err) ==> (
            m.next_hop matches Some(h) && (NextHop::spec_try_from(h) matches Err(failure)
                && Message::spec_from_update(m) == Err::<Message, Failure>(failure))),
            0 <= m.action <= 1 && (m.destination matches Some(d) && Destination::spec_try_from(
                d,
            ) is Ok) && (m.next_hop matches Some(h) && NextHop::spec_try_from(h) is Ok)
                ==> Message::spec_from_update(m) is Ok,
    {
    }

    /// What a payload holds is what the message of the schema in it says, field by field.
    pub proof fn lemma_payload_means(message_type: MessageType, payload: Seq<u8>)
        ensures
            match Message::spec_decode_payload(message_type, payload) {
                Ok(Message::Hello { keepalive_interval, is_server }) => {
                    &&& message_type is Hello
                    &&& proto::Hello::from_bytes(payload) matches Ok(m) && m.keepalive_interval
                        == keepalive_interval && m.is_server == is_server
                },
                Ok(Message::Keepalive) => message_type is Keepalive,
                Ok(Message::Subscribe { vni }) => {
                    &&& message_type is Subscribe
                    &&& proto::Subscription::from_bytes(payload) matches Ok(m) && m.vni == vni.0
                },
                Ok(Message::Unsubscribe { vni }) => {
                    &&& message_type is Unsubscribe
                    &&& proto::Subscription::from_bytes(payload) matches Ok(m) && m.vni == vni.0
                },
                Ok(Message::Update { action, vni, destination, next_hop }) => {
                    &&& message_type is Update
                    &&& proto::UpdateView::from_bytes(payload) matches Ok(m) && m.vni == vni.0
                        && m.action == (if action == Action::Add {
                        0int
                    } else {
                        1int
                    }) && (m.destination matches Some(d) && Destination::spec_try_from(d) == Ok::<
                        Destination,
                        Failure,
                    >(destination)) && (m.next_hop matches Some(h) && NextHop::spec_try_from(h)
                        == Ok::<NextHop, Failure>(next_hop))
                },
                Err(Failure::Encoding(error)) => match message_type {
                    MessageType::Hello => proto::Hello::from_bytes(payload) matches Err(e) && e
                        == error,
                    MessageType::Keepalive => false,
                    MessageType::Subscribe | MessageType::Unsubscribe => {
                        proto::Subscription::from_bytes(payload) matches Err(e) && e == error
                    },
                    MessageType::Update => proto::UpdateView::from_bytes(payload) matches Err(e)
                        && e == error,
                },
                Err(Failure::Protocol(_)) => {
                    &&& message_type is Update
                    &&& proto::UpdateView::from_bytes(payload) matches Ok(m) && {
                        ||| m.action != 0 && m.action != 1
                        ||| m.destination is None || m.next_hop is None
                        ||| m.destination matches Some(d) && Destination::spec_try_from(d) is Err
                        ||| m.next_hop matches Some(h) && NextHop::spec_try_from(h) is Err
                    }
                },
            },
    {
    }

    /// The payload of a message is a message of the schema that says the same, field by field.
    pub proof fn lemma_payload_says(self)
        ensures
            match self {
                Message::Hello { keepalive_interval, is_server } => proto::Hello::from_bytes(
                    self.payload(),
                ) matches Ok(m) && m.keepalive_interval == keepalive_interval && m.is_server
                    == is_server,
                Message::Keepalive => self.payload() == Seq::<u8>::empty(),
                Message::Subscribe { vni } => proto::Subscription::from_bytes(
                    self.payload(),
                ) matches Ok(m) && m.vni == vni.0,
                Message::Unsubscribe { vni } => proto::Subscription::from_bytes(
                    self.payload(),
                ) matches Ok(m) && m.vni == vni.0,
                Message::Update { action, vni, destination, next_hop } => {
                    proto::UpdateView::from_bytes(self.payload()) matches Ok(m) && m.vni == vni.0
                        && m.action == (if action == Action::Add {
                        0int
                    } else {
                        1int
                    }) && m.destination == Some(destination.spec_to_proto()) && m.next_hop == Some(
                        next_hop.spec_to_proto(),
                    )
                },
            },
    {
        match self {
            Message::Hello { keepalive_interval, is_server } => {
                (proto::Hello { keepalive_interval, is_server }).lemma_round_trip();
            },
            Message::Keepalive => {},
            Message::Subscribe { vni } => {
                (proto::Subscription { vni: vni.0 }).lemma_round_trip();
            },
            Message::Unsubscribe { vni } => {
                (proto::Subscription { vni: vni.0 }).lemma_round_trip();
            },
            Message::Update { action, vni, destination, next_hop } => {
                lemma_destination_len(destination);
                lemma_next_hop_len(next_hop);
                Message::update_view(action, vni, destination, next_hop).lemma_round_trip();
            },
        }
    }
}

/// The bytes of a destination are few.
proof fn lemma_destination_len(destination: Destination)
    ensures
        destination.spec_to_proto().prefix.len() <= 16,
        destination.spec_to_proto().bytes().len() <= 76,
{
    let d = destination.spec_to_proto();
    match destination.prefix {
        IpNet::V4(net) => lemma_be_bytes_len(net.addr.0 as nat, 4),
        IpNet::V6(net) => lemma_be_bytes_len(net.addr.0 as nat, 16),
    }
    lemma_number_field_len(1, proto::int_bits(d.ip_version) as nat);
    lemma_message_field_len(2, d.prefix);
    lemma_number_field_len(3, d.prefix_length as nat);
}

/// The bytes of a next hop are few.
proof fn lemma_next_hop_len(next_hop: NextHop)
    ensures
        next_hop.spec_to_proto().target_address.len() == 16,
        next_hop.spec_to_proto().bytes().len() <= 116,
{
    let h = next_hop.spec_to_proto();
    lemma_be_bytes_len(next_hop.target_address.0 as nat, 16);
    lemma_message_field_len(1, h.target_address);
    lemma_number_field_len(2, h.target_vni as nat);
    lemma_number_field_len(3, proto::int_bits(h.hop_type) as nat);
    lemma_number_field_len(4, h.nat_port_range_from as nat);
    lemma_number_field_len(5, h.nat_port_range_to as nat);
}

} // verus!
