//! Payloads, well-formed or not, are read as `prost` reads them.

use prost::bytes::{Buf, BufMut};
use prost::encoding::{bool, bytes, int32, message, skip_field, uint32, DecodeContext, WireType};
use prost::{DecodeError, Message};

use rustbond::proto;

fn at(e: DecodeError, message: &'static str, field: &'static str) -> DecodeError {
    let mut e = e;
    e.push(message, field);
    e
}

#[derive(Debug, Default, PartialEq)]
struct Hello {
    keepalive_interval: u32,
    is_server: bool,
}

impl Message for Hello {
    fn encode_raw(&self, buf: &mut impl BufMut) {
        if self.keepalive_interval != 0 {
            uint32::encode(1, &self.keepalive_interval, buf);
        }
        if self.is_server {
            bool::encode(2, &self.is_server, buf);
        }
    }

    fn merge_field(
        &mut self,
        tag: u32,
        wire_type: WireType,
        buf: &mut impl Buf,
        ctx: DecodeContext,
    ) -> Result<(), DecodeError> {
        match tag {
            1 => uint32::merge(wire_type, &mut self.keepalive_interval, buf, ctx)
                .map_err(|e| at(e, "Hello", "keepalive_interval")),
            2 => bool::merge(wire_type, &mut self.is_server, buf, ctx)
                .map_err(|e| at(e, "Hello", "is_server")),
            _ => skip_field(wire_type, tag, buf, ctx),
        }
    }

    fn encoded_len(&self) -> usize {
        let mut len = 0;
        if self.keepalive_interval != 0 {
            len += uint32::encoded_len(1, &self.keepalive_interval);
        }
        if self.is_server {
            len += bool::encoded_len(2, &self.is_server);
        }
        len
    }

    fn clear(&mut self) {
        *self = Hello::default();
    }
}

#[derive(Debug, Default, PartialEq)]
struct Destination {
    ip_version: i32,
    prefix: Vec<u8>,
    prefix_length: u32,
}

impl Message for Destination {
    fn encode_raw(&self, buf: &mut impl BufMut) {
        if self.ip_version != 0 {
            int32::encode(1, &self.ip_version, buf);
        }
        if !self.prefix.is_empty() {
            bytes::encode(2, &self.prefix, buf);
        }
        if self.prefix_length != 0 {
            uint32::encode(3, &self.prefix_length, buf);
        }
    }

    fn merge_field(
        &mut self,
        tag: u32,
        wire_type: WireType,
        buf: &mut impl Buf,
        ctx: DecodeContext,
    ) -> Result<(), DecodeError> {
        match tag {
            1 => int32::merge(wire_type, &mut self.ip_version, buf, ctx)
                .map_err(|e| at(e, "Destination", "ip_version")),
            2 => bytes::merge(wire_type, &mut self.prefix, buf, ctx)
                .map_err(|e| at(e, "Destination", "prefix")),
            3 => uint32::merge(wire_type, &mut self.prefix_length, buf, ctx)
                .map_err(|e| at(e, "Destination", "prefix_length")),
            _ => skip_field(wire_type, tag, buf, ctx),
        }
    }

    fn encoded_len(&self) -> usize {
        let mut len = 0;
        if self.ip_version != 0 {
            len += int32::encoded_len(1, &self.ip_version);
        }
        if !self.prefix.is_empty() {
            len += bytes::encoded_len(2, &self.prefix);
        }
        if self.prefix_length != 0 {
            len += uint32::encoded_len(3, &self.prefix_length);
        }
        len
    }

    fn clear(&mut self) {
        *self = Destination::default();
    }
}

#[derive(Debug, Default, PartialEq)]
struct NextHop {
    target_address: Vec<u8>,
    target_vni: u32,
    hop_type: i32,
    nat_port_range_from: u32,
    nat_port_range_to: u32,
}

impl Message for NextHop {
    fn encode_raw(&self, buf: &mut impl BufMut) {
        if !self.target_address.is_empty() {
            bytes::encode(1, &self.target_address, buf);
        }
        if self.target_vni != 0 {
            uint32::encode(2, &self.target_vni, buf);
        }
        if self.hop_type != 0 {
            int32::encode(3, &self.hop_type, buf);
        }
        if self.nat_port_range_from != 0 {
            uint32::encode(4, &self.nat_port_range_from, buf);
        }
        if self.nat_port_range_to != 0 {
            uint32::encode(5, &self.nat_port_range_to, buf);
        }
    }

    fn merge_field(
        &mut self,
        tag: u32,
        wire_type: WireType,
        buf: &mut impl Buf,
        ctx: DecodeContext,
    ) -> Result<(), DecodeError> {
        match tag {
            1 => bytes::merge(wire_type, &mut self.target_address, buf, ctx)
                .map_err(|e| at(e, "NextHop", "target_address")),
            2 => uint32::merge(wire_type, &mut self.target_vni, buf, ctx)
                .map_err(|e| at(e, "NextHop", "target_vni")),
            3 => int32::merge(wire_type, &mut self.hop_type, buf, ctx)
                .map_err(|e| at(e, "NextHop", "r#type")),
            4 => uint32::merge(wire_type, &mut self.nat_port_range_from, buf, ctx)
                .map_err(|e| at(e, "NextHop", "nat_port_range_from")),
            5 => uint32::merge(wire_type, &mut self.nat_port_range_to, buf, ctx)
                .map_err(|e| at(e, "NextHop", "nat_port_range_to")),
            _ => skip_field(wire_type, tag, buf, ctx),
        }
    }

    fn encoded_len(&self) -> usize {
        let mut len = 0;
        if !self.target_address.is_empty() {
            len += bytes::encoded_len(1, &self.target_address);
        }
        if self.target_vni != 0 {
            len += uint32::encoded_len(2, &self.target_vni);
        }
        if self.hop_type != 0 {
            len += int32::encoded_len(3, &self.hop_type);
        }
        if self.nat_port_range_from != 0 {
            len += uint32::encoded_len(4, &self.nat_port_range_from);
        }
        if self.nat_port_range_to != 0 {
            len += uint32::encoded_len(5, &self.nat_port_range_to);
        }
        len
    }

    fn clear(&mut self) {
        *self = NextHop::default();
    }
}

#[derive(Debug, Default, PartialEq)]
struct Update {
    action: i32,
    vni: u32,
    destination: Option<Destination>,
    next_hop: Option<NextHop>,
}

impl Message for Update {
    fn encode_raw(&self, buf: &mut impl BufMut) {
        if self.action != 0 {
            int32::encode(1, &self.action, buf);
        }
        if self.vni != 0 {
            uint32::encode(2, &self.vni, buf);
        }
        if let Some(destination) = &self.destination {
            message::encode(3, destination, buf);
        }
        if let Some(next_hop) = &self.next_hop {
            message::encode(4, next_hop, buf);
        }
    }

    fn merge_field(
        &mut self,
        tag: u32,
        wire_type: WireType,
        buf: &mut impl Buf,
        ctx: DecodeContext,
    ) -> Result<(), DecodeError> {
        match tag {
            1 => int32::merge(wire_type, &mut self.action, buf, ctx)
                .map_err(|e| at(e, "Update", "action")),
            2 => uint32::merge(wire_type, &mut self.vni, buf, ctx)
                .map_err(|e| at(e, "Update", "vni")),
            3 => {
                let value = self.destination.get_or_insert_with(Destination::default);
                message::merge(wire_type, value, buf, ctx)
                    .map_err(|e| at(e, "Update", "destination"))
            }
            4 => {
                let value = self.next_hop.get_or_insert_with(NextHop::default);
                message::merge(wire_type, value, buf, ctx).map_err(|e| at(e, "Update", "next_hop"))
            }
            _ => skip_field(wire_type, tag, buf, ctx),
        }
    }

    fn encoded_len(&self) -> usize {
        let mut len = 0;
        if self.action != 0 {
            len += int32::encoded_len(1, &self.action);
        }
        if self.vni != 0 {
            len += uint32::encoded_len(2, &self.vni);
        }
        if let Some(destination) = &self.destination {
            len += message::encoded_len(3, destination);
        }
        if let Some(next_hop) = &self.next_hop {
            len += message::encoded_len(4, next_hop);
        }
        len
    }

    fn clear(&mut self) {
        *self = Update::default();
    }
}

fn plain_hello(m: proto::Hello) -> Hello {
    Hello {
        keepalive_interval: m.keepalive_interval,
        is_server: m.is_server,
    }
}

fn plain_update(m: proto::Update) -> Update {
    Update {
        action: m.action,
        vni: m.vni,
        destination: m.destination.map(|d| Destination {
            ip_version: d.ip_version,
            prefix: d.prefix,
            prefix_length: d.prefix_length,
        }),
        next_hop: m.next_hop.map(|h| NextHop {
            target_address: h.target_address,
            target_vni: h.target_vni,
            hop_type: h.hop_type,
            nat_port_range_from: h.nat_port_range_from,
            nat_port_range_to: h.nat_port_range_to,
        }),
    }
}

/// Numbers that look random and are the same in every run.
struct Numbers(u64);

impl Numbers {
    fn next(&mut self, below: u64) -> u64 {
        self.0 = self
            .0
            .wrapping_mul(6364136223846793005)
            .wrapping_add(1442695040888963407);
        (self.0 >> 33) % below
    }

    fn varint(&mut self, buf: &mut Vec<u8>) {
        let value = match self.next(4) {
            0 => self.next(4),
            1 => self.next(300),
            2 => self.next(1 << 30) << 4,
            _ => u64::MAX - self.next(1 << 30),
        };
        prost::encoding::encode_varint(value, buf);
    }

    /// A group inside groups, which mostly end.
    fn group(&mut self, buf: &mut Vec<u8>) {
        let depth = match self.next(3) {
            0 => 1 + self.next(3),
            _ => 97 + self.next(6),
        };
        let mut ends = Vec::new();
        for _ in 0..depth {
            let tag = 6 + self.next(3) as u8;
            buf.push(tag * 8 + 3);
            ends.push(tag * 8 + 4);
        }
        if self.next(4) == 0 {
            buf.extend_from_slice(&[0x48, 1]);
        }
        if self.next(6) == 0 {
            ends.remove(0);
        }
        ends.reverse();
        buf.extend_from_slice(&ends);
    }

    /// Some fields, of which few are malformed.
    fn fields(&mut self, nested: bool) -> Vec<u8> {
        let mut buf = Vec::new();
        for _ in 0..self.next(5) {
            match self.next(12) {
                0 => buf.push(self.next(256) as u8),
                1 => self.group(&mut buf),
                2 | 3 if !nested => {
                    let inner = self.fields(true);
                    buf.push(if self.next(2) == 0 { 0x1a } else { 0x22 });
                    let wrong = if self.next(8) == 0 { self.next(3) } else { 0 };
                    prost::encoding::encode_varint(inner.len() as u64 + wrong, &mut buf);
                    buf.extend_from_slice(&inner);
                }
                4 | 5 => {
                    buf.push((1 + self.next(7) as u8) * 8 + 2);
                    let len = self.next(6);
                    let wrong = if self.next(8) == 0 { self.next(4) } else { 0 };
                    prost::encoding::encode_varint(len + wrong, &mut buf);
                    for _ in 0..len {
                        buf.push(self.next(256) as u8);
                    }
                }
                6 => {
                    buf.push((1 + self.next(8) as u8) * 8 + self.next(8) as u8);
                    for _ in 0..self.next(9) {
                        buf.push(self.next(256) as u8);
                    }
                }
                _ => {
                    buf.push((1 + self.next(6) as u8) * 8);
                    self.varint(&mut buf);
                }
            }
        }
        buf
    }
}

fn same<M: PartialEq + std::fmt::Debug>(
    payload: &[u8],
    read: Result<M, DecodeError>,
    expected: Result<M, DecodeError>,
) -> bool {
    match (read, expected) {
        (Ok(m), Ok(n)) => {
            assert_eq!(m, n, "{:?}", payload);
            true
        }
        (Err(e), Err(f)) => {
            assert_eq!(e.to_string(), f.to_string(), "{:?}", payload);
            assert_eq!(e, f);
            false
        }
        (m, n) => panic!("{:?} was read as {:?}, not as {:?}", payload, m, n),
    }
}

#[test]
fn payloads_are_read_alike() {
    let mut numbers = Numbers(1);
    let (mut fine, mut wrong) = (0, 0);
    for _ in 0..40_000 {
        let payload = numbers.fields(false);
        let hello = same(
            &payload,
            proto::Hello::decode(&payload).map(plain_hello),
            Hello::decode(&payload[..]),
        );
        let update = same(
            &payload,
            proto::Update::decode(&payload).map(plain_update),
            Update::decode(&payload[..]),
        );
        if hello && update {
            fine += 1;
        } else {
            wrong += 1;
        }
    }
    assert!(fine > 1000 && wrong > 1000, "{} {}", fine, wrong);
}

#[test]
fn messages_are_written_alike() {
    let mut numbers = Numbers(2);
    for _ in 0..10_000 {
        let payload = numbers.fields(false);
        if let Ok(m) = Update::decode(&payload[..]) {
            let own = proto::Update::decode(&payload).unwrap();
            assert_eq!(own.encode(), m.encode_to_vec());
        }
        if let Ok(m) = Hello::decode(&payload[..]) {
            let own = proto::Hello::decode(&payload).unwrap();
            assert_eq!(own.encode(), m.encode_to_vec());
        }
    }
}
