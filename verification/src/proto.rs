//! The Protobuf messages of the MetalBond schema and their encoding.

use prost::DecodeError;
use vstd::prelude::*;

use crate::pb::{
    length_exceeded, locate, put_bytes_field, put_message_field, put_number_field, skip_unknown,
    take_bytes, take_key, take_length, take_number, WireType,
};
use crate::pb::{
    bytes_field, lemma_field_bytes, lemma_merge_bytes, lemma_merge_message, lemma_merge_none,
    lemma_merge_number, lemma_read_bytes, lemma_read_length, lemma_read_number, located,
    merge_fields, message_field, number_field, read_bytes, read_message, read_number, skip, varint,
};

verus! {

/// IP version of a destination.
#[derive(Debug, Clone, Copy, PartialEq, Eq, Structural)]
pub enum IpVersion {
    IPv4,
    IPv6,
}

/// What an update does to a route.
#[derive(Debug, Clone, Copy, PartialEq, Eq, Structural)]
pub enum Action {
    Add,
    Remove,
}

/// Type of a next hop.
#[derive(Debug, Clone, Copy, PartialEq, Eq, Structural)]
pub enum NextHopType {
    Standard,
    Nat,
    LoadbalancerTarget,
}

impl IpVersion {
    pub open spec fn spec_number(self) -> i32 {
        match self {
            IpVersion::IPv4 => 0,
            IpVersion::IPv6 => 1,
        }
    }

    pub open spec fn spec_from_number(v: i32) -> Option<IpVersion> {
        if v == 0 {
            Some(IpVersion::IPv4)
        } else if v == 1 {
            Some(IpVersion::IPv6)
        } else {
            None
        }
    }

    /// The number that stands for the version.
    pub fn number(self) -> (r: i32)
        ensures
            r == self.spec_number(),
    {
        match self {
            IpVersion::IPv4 => 0,
            IpVersion::IPv6 => 1,
        }
    }

    /// The version that a number stands for.
    pub fn from_number(v: i32) -> (r: Option<IpVersion>)
        ensures
            r == IpVersion::spec_from_number(v),
    {
        match v {
            0 => Some(IpVersion::IPv4),
            1 => Some(IpVersion::IPv6),
            _ => None,
        }
    }
}

impl Action {
    pub open spec fn spec_number(self) -> i32 {
        match self {
            Action::Add => 0,
            Action::Remove => 1,
        }
    }

    pub open spec fn spec_from_number(v: i32) -> Option<Action> {
        if v == 0 {
            Some(Action::Add)
        } else if v == 1 {
            Some(Action::Remove)
        } else {
            None
        }
    }

    /// The number that stands for the action.
    pub fn number(self) -> (r: i32)
        ensures
            r == self.spec_number(),
    {
        match self {
            Action::Add => 0,
            Action::Remove => 1,
        }
    }

    /// The action that a number stands for.
    pub fn from_number(v: i32) -> (r: Option<Action>)
        ensures
            r == Action::spec_from_number(v),
    {
        match v {
            0 => Some(Action::Add),
            1 => Some(Action::Remove),
            _ => None,
        }
    }
}

impl NextHopType {
    pub open spec fn spec_number(self) -> i32 {
        match self {
            NextHopType::Standard => 0,
            NextHopType::Nat => 1,
            NextHopType::LoadbalancerTarget => 2,
        }
    }

    pub open spec fn spec_from_number(v: i32) -> Option<NextHopType> {
        if v == 0 {
            Some(NextHopType::Standard)
        } else if v == 1 {
            Some(NextHopType::Nat)
        } else if v == 2 {
            Some(NextHopType::LoadbalancerTarget)
        } else {
            None
        }
    }

    /// The number that stands for the type.
    pub fn number(self) -> (r: i32)
        ensures
            r == self.spec_number(),
    {
        match self {
            NextHopType::Standard => 0,
            NextHopType::Nat => 1,
            NextHopType::LoadbalancerTarget => 2,
        }
    }

    /// The type that a number stands for.
    pub fn from_number(v: i32) -> (r: Option<NextHopType>)
        ensures
            r == NextHopType::spec_from_number(v),
    {
        match v {
            0 => Some(NextHopType::Standard),
            1 => Some(NextHopType::Nat),
            2 => Some(NextHopType::LoadbalancerTarget),
            _ => None,
        }
    }
}

// ----------------------------------------------------------------------------
// Numbers
// ----------------------------------------------------------------------------

/// The 32 lowest bits of a number.
pub open spec fn low32(v: u64) -> u32 {
    (v % 0x1_0000_0000) as u32
}

/// The 32 lowest bits of a number, read as a signed number.
pub open spec fn low32_signed(v: u64) -> i32 {
    if v % 0x1_0000_0000 < 0x8000_0000 {
        (v % 0x1_0000_0000) as i32
    } else {
        (v % 0x1_0000_0000 - 0x1_0000_0000) as i32
    }
}

/// A signed number as 64 bits.
pub open spec fn int_bits(v: i32) -> u64 {
    if v >= 0 {
        v as u64
    } else {
        (v + 0x1_0000_0000_0000_0000) as u64
    }
}

/// A number keeps its 32 lowest bits, and a signed one is read back from its 64.
pub proof fn lemma_low_bits(v: u64, i: i32)
    ensures
        (v - low32(v)) % 0x1_0000_0000 == 0,
        (v - low32_signed(v)) % 0x1_0000_0000 == 0,
        low32_signed(int_bits(i)) == i,
        i >= 0 ==> int_bits(i) == i,
{
}

/// The numbers of the schema: IPv4 and IPv6, adding and removing, and the three types of next hops
/// count from zero. No other numbers stand for anything.
pub proof fn lemma_schema_numbers(v: i32)
    ensures
        IpVersion::IPv4.spec_number() == 0 && IpVersion::IPv6.spec_number() == 1,
        Action::Add.spec_number() == 0 && Action::Remove.spec_number() == 1,
        NextHopType::Standard.spec_number() == 0 && NextHopType::Nat.spec_number() == 1
            && NextHopType::LoadbalancerTarget.spec_number() == 2,
        IpVersion::spec_from_number(v) is Some <==> 0 <= v <= 1,
        IpVersion::spec_from_number(v) matches Some(x) ==> x.spec_number() == v,
        Action::spec_from_number(v) is Some <==> 0 <= v <= 1,
        Action::spec_from_number(v) matches Some(x) ==> x.spec_number() == v,
        NextHopType::spec_from_number(v) is Some <==> 0 <= v <= 2,
        NextHopType::spec_from_number(v) matches Some(x) ==> x.spec_number() == v,
{
}

fn take_low32(v: u64) -> (r: u32)
    ensures
        r == low32(v),
{
    (v % 0x1_0000_0000) as u32
}

fn take_low32_signed(v: u64) -> (r: i32)
    ensures
        r == low32_signed(v),
{
    let low: u64 = v % 0x1_0000_0000;
    if low < 0x8000_0000 {
        low as i32
    } else {
        (low as i64 - 0x1_0000_0000) as i32
    }
}

fn to_int_bits(v: i32) -> (r: u64)
    ensures
        r == int_bits(v),
{
    if v >= 0 {
        v as u64
    } else {
        (v as i128 + 0x1_0000_0000_0000_0000) as u64
    }
}

// ----------------------------------------------------------------------------
// Merging fields
// ----------------------------------------------------------------------------

/// What came of merging a field into a message is what was expected: the message is the next one,
/// and the bytes behind the field are left.
spec fn merged<M>(
    expected: Result<(M, Seq<u8>), DecodeError>,
    m: M,
    left: Result<&[u8], DecodeError>,
    value: Seq<u8>,
) -> bool {
    match expected {
        Ok((next, behind)) => left matches Ok(rest) && m == next && rest@ == behind && rest@.len()
            <= value.len(),
        Err(error) => left matches Err(e) && e == error,
    }
}

// ----------------------------------------------------------------------------
// Hello
// ----------------------------------------------------------------------------

/// The greeting of either side.
#[derive(Debug, Clone, Copy, PartialEq, Eq, Structural)]
pub struct Hello {
    pub keepalive_interval: u32,
    pub is_server: bool,
}

impl Hello {
    pub open spec fn spec_default() -> Hello {
        Hello { keepalive_interval: 0, is_server: false }
    }

    /// The bytes of the message.
    pub open spec fn bytes(self) -> Seq<u8> {
        number_field(1, self.keepalive_interval as nat) + number_field(
            2,
            if self.is_server {
                1
            } else {
                0
            },
        )
    }

    /// The message with a field merged into it, given the bytes behind the field's key, and the
    /// bytes behind the field.
    pub open spec fn merge(self, tag: u32, wire_type: WireType, s: Seq<u8>) -> Result<
        (Hello, Seq<u8>),
        DecodeError,
    > {
        if tag == 1 {
            match read_number(wire_type, s) {
                Ok((v, rest)) => Ok((Hello { keepalive_interval: low32(v), ..self }, rest)),
                Err(e) => Err(located(e, "Hello"@, "keepalive_interval"@)),
            }
        } else if tag == 2 {
            match read_number(wire_type, s) {
                Ok((v, rest)) => Ok((Hello { is_server: v != 0, ..self }, rest)),
                Err(e) => Err(located(e, "Hello"@, "is_server"@)),
            }
        } else {
            match skip(tag, wire_type, s, false) {
                Ok(rest) => Ok((self, rest)),
                Err(e) => Err(e),
            }
        }
    }

    /// A field changes only what it stands for, and a field that is not known changes nothing.
    pub proof fn lemma_merge_means(self, tag: u32, wire_type: WireType, s: Seq<u8>)
        ensures
            self.merge(tag, wire_type, s) matches Ok((m, _)) ==> {
                &&& tag != 1 ==> m.keepalive_interval == self.keepalive_interval
                &&& tag != 2 ==> m.is_server == self.is_server
            },
            !(1 <= tag <= 2) ==> (self.merge(tag, wire_type, s) is Ok <==> skip(
                tag,
                wire_type,
                s,
                false,
            ) is Ok),
            !(1 <= tag <= 2) ==> (self.merge(tag, wire_type, s) matches Ok((_, rest)) ==> skip(
                tag,
                wire_type,
                s,
                false,
            ) == Ok::<Seq<u8>, DecodeError>(rest)),
            tag == 1 ==> (self.merge(tag, wire_type, s) matches Ok((m, rest)) ==> (read_number(
                wire_type,
                s,
            ) matches Ok((v, behind)) && rest == behind && m.keepalive_interval == v % 0x1_0000_0000)),
            tag == 2 ==> (self.merge(tag, wire_type, s) matches Ok((m, rest)) ==> (read_number(
                wire_type,
                s,
            ) matches Ok((v, behind)) && rest == behind && m.is_server == (v != 0))),
    {
    }

    pub open spec fn merging() -> spec_fn(Hello, u32, WireType, Seq<u8>) -> Result<
        (Hello, Seq<u8>),
        DecodeError,
    > {
        |m: Hello, tag: u32, wire_type: WireType, s: Seq<u8>| m.merge(tag, wire_type, s)
    }

    /// The message that some bytes hold.
    pub open spec fn from_bytes(s: Seq<u8>) -> Result<Hello, DecodeError> {
        match merge_fields(Hello::spec_default(), s, 0, Hello::merging()) {
            Ok((m, _)) => Ok(m),
            Err(e) => Err(e),
        }
    }

    /// Encodes the message.
    pub fn encode(&self) -> (r: Vec<u8>)
        ensures
            r@ == self.bytes(),
    {
        let mut buf: Vec<u8> = Vec::new();
        put_number_field(&mut buf, 1, self.keepalive_interval as u64);
        put_number_field(
            &mut buf,
            2,
            if self.is_server {
                1
            } else {
                0
            },
        );
        assert(buf@ =~= self.bytes());
        buf
    }

    /// Merges a field into the message, given the bytes behind the field's key. Returns the bytes
    /// behind the field.
    fn merge_field<'a>(&mut self, tag: u32, wire_type: WireType, buf: &'a [u8]) -> (r: Result<
        &'a [u8],
        DecodeError,
    >)
        requires
            1 <= tag < 0x2000_0000,
        ensures
            merged(old(self).merge(tag, wire_type, buf@), *final(self), r, buf@),
    {
        if tag == 1 {
            match take_number(wire_type, buf) {
                Ok((v, rest)) => {
                    self.keepalive_interval = take_low32(v);
                    Ok(rest)
                },
                Err(e) => Err(locate(e, "Hello", "keepalive_interval")),
            }
        } else if tag == 2 {
            match take_number(wire_type, buf) {
                Ok((v, rest)) => {
                    self.is_server = v != 0;
                    Ok(rest)
                },
                Err(e) => Err(locate(e, "Hello", "is_server")),
            }
        } else {
            skip_unknown(tag, wire_type, buf, false)
        }
    }

    /// Decodes a message.
    pub fn decode(buf: &[u8]) -> (r: Result<Hello, DecodeError>)
        ensures
            r == Hello::from_bytes(buf@),
    {
        let mut m = Hello { keepalive_interval: 0, is_server: false };
        let mut rest = buf;
        let ghost merge = Hello::merging();
        while rest.len() > 0
            invariant
                merge == Hello::merging(),
                merge_fields(Hello::spec_default(), buf@, 0, merge) == merge_fields(
                    m,
                    rest@,
                    0,
                    merge,
                ),
            decreases rest@.len(),
        {
            proof {
                reveal(merge_fields);
            }
            let (tag, field_type, field) = match take_key(rest) {
                Ok(key) => key,
                Err(e) => return Err(e),
            };
            rest = match m.merge_field(tag, field_type, field) {
                Ok(rest) => rest,
                Err(e) => return Err(e),
            };
        }
        proof {
            lemma_merge_none(m, rest@, merge);
        }
        Ok(m)
    }

    /// The fields on the wire: the interval has number one, and whether a server sends has two.
    pub proof fn lemma_bytes(self)
        ensures
            self.bytes() == (if self.keepalive_interval != 0 {
                seq![0x08u8] + varint(self.keepalive_interval as nat)
            } else {
                Seq::empty()
            }) + (if self.is_server {
                seq![0x10u8, 1u8]
            } else {
                Seq::empty()
            }),
    {
        lemma_field_bytes(1, self.keepalive_interval as nat, Seq::empty());
        lemma_field_bytes(2, 1, Seq::empty());
        assert(seq![0x10u8] + varint(1) =~= seq![0x10u8, 1u8]);
    }

    /// Where a field stands twice, the later one counts; a field that does not stand there the
    /// second time keeps its value.
    pub proof fn lemma_later_counts(self, later: Hello)
        ensures
            Hello::from_bytes(self.bytes() + later.bytes()) == Ok::<Hello, DecodeError>(
                Hello {
                    keepalive_interval: if later.keepalive_interval != 0 {
                        later.keepalive_interval
                    } else {
                        self.keepalive_interval
                    },
                    is_server: self.is_server || later.is_server,
                },
            ),
    {
        let merge = Hello::merging();
        let flag: u64 = if self.is_server {
            1
        } else {
            0
        };
        let flag2: u64 = if later.is_server {
            1
        } else {
            0
        };
        let first = self.keepalive_interval as u64;
        let second = later.keepalive_interval as u64;
        let none = Seq::<u8>::empty();
        let b4 = number_field(2, flag2 as nat) + none;
        let b3 = number_field(1, second as nat) + b4;
        let b2 = number_field(2, flag as nat) + b3;
        assert(self.bytes() + later.bytes() =~= number_field(1, first as nat) + b2);
        let m = Hello::spec_default();
        let m1 = Hello { keepalive_interval: self.keepalive_interval, ..m };
        let m3 = Hello {
            keepalive_interval: if second != 0 {
                later.keepalive_interval
            } else {
                self.keepalive_interval
            },
            ..self
        };
        let m4 = Hello { is_server: self.is_server || later.is_server, ..m3 };
        lemma_read_number(first, b2);
        lemma_merge_number(m, 1, first, b2, 0, merge, m1);
        lemma_read_number(flag, b3);
        lemma_merge_number(m1, 2, flag, b3, 0, merge, self);
        lemma_read_number(second, b4);
        lemma_merge_number(self, 1, second, b4, 0, merge, m3);
        lemma_read_number(flag2, none);
        lemma_merge_number(m3, 2, flag2, none, 0, merge, m4);
        lemma_merge_none(m4, none, merge);
    }

    /// Decoding what was encoded gives the message back.
    pub proof fn lemma_round_trip(self)
        ensures
            Hello::from_bytes(self.bytes()) == Ok::<Hello, DecodeError>(self),
    {
        let server: u64 = if self.is_server {
            1
        } else {
            0
        };
        let interval = self.keepalive_interval as u64;
        let none = Seq::<u8>::empty();
        let b2 = number_field(2, server as nat) + none;
        assert(self.bytes() =~= number_field(1, interval as nat) + b2);
        let m = Hello::spec_default();
        let m1 = Hello { keepalive_interval: self.keepalive_interval, ..m };
        lemma_read_number(interval, b2);
        lemma_merge_number(m, 1, interval, b2, 0, Hello::merging(), m1);
        lemma_read_number(server, none);
        lemma_merge_number(m1, 2, server, none, 0, Hello::merging(), self);
        lemma_merge_none(self, none, Hello::merging());
    }
}

// ----------------------------------------------------------------------------
// Subscription
// ----------------------------------------------------------------------------

/// A request to start or stop receiving the routes of a VNI.
#[derive(Debug, Clone, Copy, PartialEq, Eq, Structural)]
pub struct Subscription {
    pub vni: u32,
}

impl Subscription {
    pub open spec fn spec_default() -> Subscription {
        Subscription { vni: 0 }
    }

    /// The bytes of the message.
    pub open spec fn bytes(self) -> Seq<u8> {
        number_field(1, self.vni as nat)
    }

    /// The message with a field merged into it, given the bytes behind the field's key, and the
    /// bytes behind the field.
    pub open spec fn merge(self, tag: u32, wire_type: WireType, s: Seq<u8>) -> Result<
        (Subscription, Seq<u8>),
        DecodeError,
    > {
        if tag == 1 {
            match read_number(wire_type, s) {
                Ok((v, rest)) => Ok((Subscription { vni: low32(v) }, rest)),
                Err(e) => Err(located(e, "Subscription"@, "vni"@)),
            }
        } else {
            match skip(tag, wire_type, s, false) {
                Ok(rest) => Ok((self, rest)),
                Err(e) => Err(e),
            }
        }
    }

    /// A field changes only what it stands for, and a field that is not known changes nothing.
    pub proof fn lemma_merge_means(self, tag: u32, wire_type: WireType, s: Seq<u8>)
        ensures
            self.merge(tag, wire_type, s) matches Ok((m, _)) ==> {
                &&& tag != 1 ==> m.vni == self.vni
            },
            tag != 1 ==> (self.merge(tag, wire_type, s) is Ok <==> skip(
                tag,
                wire_type,
                s,
                false,
            ) is Ok),
            tag != 1 ==> (self.merge(tag, wire_type, s) matches Ok((_, rest)) ==> skip(
                tag,
                wire_type,
                s,
                false,
            ) == Ok::<Seq<u8>, DecodeError>(rest)),
            tag == 1 ==> (self.merge(tag, wire_type, s) matches Ok((m, rest)) ==> (read_number(
                wire_type,
                s,
            ) matches Ok((v, behind)) && rest == behind && m.vni == v % 0x1_0000_0000)),
    {
    }

    pub open spec fn merging() -> spec_fn(Subscription, u32, WireType, Seq<u8>) -> Result<
        (Subscription, Seq<u8>),
        DecodeError,
    > {
        |m: Subscription, tag: u32, wire_type: WireType, s: Seq<u8>| m.merge(tag, wire_type, s)
    }

    /// The message that some bytes hold.
    pub open spec fn from_bytes(s: Seq<u8>) -> Result<Subscription, DecodeError> {
        match merge_fields(Subscription::spec_default(), s, 0, Subscription::merging()) {
            Ok((m, _)) => Ok(m),
            Err(e) => Err(e),
        }
    }

    /// Encodes the message.
    pub fn encode(&self) -> (r: Vec<u8>)
        ensures
            r@ == self.bytes(),
    {
        let mut buf: Vec<u8> = Vec::new();
        put_number_field(&mut buf, 1, self.vni as u64);
        assert(buf@ =~= self.bytes());
        buf
    }

    /// Merges a field into the message, given the bytes behind the field's key. Returns the bytes
    /// behind the field.
    fn merge_field<'a>(&mut self, tag: u32, wire_type: WireType, buf: &'a [u8]) -> (r: Result<
        &'a [u8],
        DecodeError,
    >)
        requires
            1 <= tag < 0x2000_0000,
        ensures
            merged(old(self).merge(tag, wire_type, buf@), *final(self), r, buf@),
    {
        if tag == 1 {
            match take_number(wire_type, buf) {
                Ok((v, rest)) => {
                    self.vni = take_low32(v);
                    Ok(rest)
                },
                Err(e) => Err(locate(e, "Subscription", "vni")),
            }
        } else {
            skip_unknown(tag, wire_type, buf, false)
        }
    }

    /// Decodes a message.
    pub fn decode(buf: &[u8]) -> (r: Result<Subscription, DecodeError>)
        ensures
            r == Subscription::from_bytes(buf@),
    {
        let mut m = Subscription { vni: 0 };
        let mut rest = buf;
        let ghost merge = Subscription::merging();
        while rest.len() > 0
            invariant
                merge == Subscription::merging(),
                merge_fields(Subscription::spec_default(), buf@, 0, merge) == merge_fields(
                    m,
                    rest@,
                    0,
                    merge,
                ),
            decreases rest@.len(),
        {
            proof {
                reveal(merge_fields);
            }
            let (tag, field_type, field) = match take_key(rest) {
                Ok(key) => key,
                Err(e) => return Err(e),
            };
            rest = match m.merge_field(tag, field_type, field) {
                Ok(rest) => rest,
                Err(e) => return Err(e),
            };
        }
        proof {
            lemma_merge_none(m, rest@, merge);
        }
        Ok(m)
    }

    /// The field on the wire: the VNI has number one.
    pub proof fn lemma_bytes(self)
        ensures
            self.bytes() == if self.vni != 0 {
                seq![0x08u8] + varint(self.vni as nat)
            } else {
                Seq::empty()
            },
    {
        lemma_field_bytes(1, self.vni as nat, Seq::empty());
    }

    /// Decoding what was encoded gives the message back.
    pub proof fn lemma_round_trip(self)
        ensures
            Subscription::from_bytes(self.bytes()) == Ok::<Subscription, DecodeError>(self),
    {
        let none = Seq::<u8>::empty();
        assert(self.bytes() =~= number_field(1, self.vni as nat) + none);
        lemma_read_number(self.vni as u64, none);
        lemma_merge_number(
            Subscription::spec_default(),
            1,
            self.vni as u64,
            none,
            0,
            Subscription::merging(),
            self,
        );
        lemma_merge_none(self, none, Subscription::merging());
    }
}

// ----------------------------------------------------------------------------
// Destination
// ----------------------------------------------------------------------------

/// The prefix that a route leads to.
#[derive(Debug)]
pub struct Destination {
    pub ip_version: i32,
    pub prefix: Vec<u8>,
    pub prefix_length: u32,
}

/// The mathematical form of a [`Destination`].
#[verifier::ext_equal]
pub struct DestinationView {
    pub ip_version: i32,
    pub prefix: Seq<u8>,
    pub prefix_length: u32,
}

impl View for Destination {
    type V = DestinationView;

    open spec fn view(&self) -> DestinationView {
        DestinationView {
            ip_version: self.ip_version,
            prefix: self.prefix@,
            prefix_length: self.prefix_length,
        }
    }
}

impl DestinationView {
    pub open spec fn spec_default() -> DestinationView {
        DestinationView { ip_version: 0, prefix: Seq::empty(), prefix_length: 0 }
    }

    /// The bytes of the message.
    pub open spec fn bytes(self) -> Seq<u8> {
        number_field(1, int_bits(self.ip_version) as nat) + bytes_field(2, self.prefix)
            + number_field(3, self.prefix_length as nat)
    }

    /// The message with a field merged into it, given the bytes behind the field's key, and the
    /// bytes behind the field.
    pub open spec fn merge(self, tag: u32, wire_type: WireType, s: Seq<u8>) -> Result<
        (DestinationView, Seq<u8>),
        DecodeError,
    > {
        if tag == 1 {
            match read_number(wire_type, s) {
                Ok((v, rest)) => Ok((DestinationView { ip_version: low32_signed(v), ..self }, rest)),
                Err(e) => Err(located(e, "Destination"@, "ip_version"@)),
            }
        } else if tag == 2 {
            match read_bytes(wire_type, s) {
                Ok((v, rest)) => Ok((DestinationView { prefix: v, ..self }, rest)),
                Err(e) => Err(located(e, "Destination"@, "prefix"@)),
            }
        } else if tag == 3 {
            match read_number(wire_type, s) {
                Ok((v, rest)) => Ok((DestinationView { prefix_length: low32(v), ..self }, rest)),
                Err(e) => Err(located(e, "Destination"@, "prefix_length"@)),
            }
        } else {
            match skip(tag, wire_type, s, true) {
                Ok(rest) => Ok((self, rest)),
                Err(e) => Err(e),
            }
        }
    }

    /// A field changes only what it stands for, and a field that is not known changes nothing.
    pub proof fn lemma_merge_means(self, tag: u32, wire_type: WireType, s: Seq<u8>)
        ensures
            self.merge(tag, wire_type, s) matches Ok((m, _)) ==> {
                &&& tag != 1 ==> m.ip_version == self.ip_version
                &&& tag != 2 ==> m.prefix == self.prefix
                &&& tag != 3 ==> m.prefix_length == self.prefix_length
            },
            !(1 <= tag <= 3) ==> (self.merge(tag, wire_type, s) is Ok <==> skip(
                tag,
                wire_type,
                s,
                true,
            ) is Ok),
            !(1 <= tag <= 3) ==> (self.merge(tag, wire_type, s) matches Ok((_, rest)) ==> skip(
                tag,
                wire_type,
                s,
                true,
            ) == Ok::<Seq<u8>, DecodeError>(rest)),
            tag == 1 ==> (self.merge(tag, wire_type, s) matches Ok((m, rest)) ==> (read_number(
                wire_type,
                s,
            ) matches Ok((v, behind)) && rest == behind && m.ip_version == low32_signed(v))),
            tag == 3 ==> (self.merge(tag, wire_type, s) matches Ok((m, rest)) ==> (read_number(
                wire_type,
                s,
            ) matches Ok((v, behind)) && rest == behind && m.prefix_length == v % 0x1_0000_0000)),
            tag == 2 ==> (self.merge(tag, wire_type, s) matches Ok((m, rest)) ==> (read_bytes(
                wire_type,
                s,
            ) matches Ok((v, behind)) && rest == behind && m.prefix == v)),
    {
    }

    pub open spec fn merging() -> spec_fn(DestinationView, u32, WireType, Seq<u8>) -> Result<
        (DestinationView, Seq<u8>),
        DecodeError,
    > {
        |m: DestinationView, tag: u32, wire_type: WireType, s: Seq<u8>|
            m.merge(tag, wire_type, s)
    }

    /// The fields on the wire: the IP version has number one, the bytes of the address have two,
    /// and the prefix length has three.
    pub proof fn lemma_bytes(self)
        ensures
            self.bytes() == (if self.ip_version != 0 {
                seq![0x08u8] + varint(int_bits(self.ip_version) as nat)
            } else {
                Seq::empty()
            }) + (if self.prefix.len() != 0 {
                seq![0x12u8] + varint(self.prefix.len()) + self.prefix
            } else {
                Seq::empty()
            }) + (if self.prefix_length != 0 {
                seq![0x18u8] + varint(self.prefix_length as nat)
            } else {
                Seq::empty()
            }),
    {
        lemma_field_bytes(1, int_bits(self.ip_version) as nat, Seq::empty());
        lemma_field_bytes(2, 0, self.prefix);
        lemma_field_bytes(3, self.prefix_length as nat, Seq::empty());
    }

    /// Merging what was encoded into an empty message gives the message back, whatever follows.
    pub proof fn lemma_round_trip(self, rest: Seq<u8>)
        requires
            self.prefix.len() <= u64::MAX,
        ensures
            merge_fields(
                DestinationView::spec_default(),
                self.bytes() + rest,
                rest.len(),
                DestinationView::merging(),
            ) == Ok::<(DestinationView, Seq<u8>), DecodeError>((self, rest)),
    {
        let limit = rest.len();
        let merge = DestinationView::merging();
        let version = int_bits(self.ip_version);
        let length = self.prefix_length as u64;
        let b3 = number_field(3, length as nat) + rest;
        let b2 = bytes_field(2, self.prefix) + b3;
        assert(self.bytes() + rest =~= number_field(1, version as nat) + b2);
        let m = DestinationView::spec_default();
        let m1 = DestinationView { ip_version: self.ip_version, ..m };
        let m2 = DestinationView { prefix: self.prefix, ..m1 };
        lemma_read_number(version, b2);
        lemma_merge_number(m, 1, version, b2, limit, merge, m1);
        assert(self.prefix.len() == 0 ==> m1 =~= m2);
        lemma_read_bytes(self.prefix, b3);
        lemma_merge_bytes(m1, 2, self.prefix, b3, limit, merge, m2);
        lemma_read_number(length, rest);
        lemma_merge_number(m2, 3, length, rest, limit, merge, self);
        lemma_merge_none(self, rest, merge);
    }
}

impl Destination {
    /// Encodes the message.
    pub fn encode(&self) -> (r: Vec<u8>)
        ensures
            r@ == self@.bytes(),
    {
        let mut buf: Vec<u8> = Vec::new();
        put_number_field(&mut buf, 1, to_int_bits(self.ip_version));
        put_bytes_field(&mut buf, 2, &self.prefix);
        put_number_field(&mut buf, 3, self.prefix_length as u64);
        assert(buf@ =~= self@.bytes());
        buf
    }

    /// Merges a field into the message, given the bytes behind the field's key. Returns the bytes
    /// behind the field.
    fn merge_field<'a>(&mut self, tag: u32, wire_type: WireType, buf: &'a [u8]) -> (r: Result<
        &'a [u8],
        DecodeError,
    >)
        requires
            1 <= tag < 0x2000_0000,
        ensures
            merged(old(self)@.merge(tag, wire_type, buf@), final(self)@, r, buf@),
    {
        if tag == 1 {
            match take_number(wire_type, buf) {
                Ok((v, rest)) => {
                    self.ip_version = take_low32_signed(v);
                    Ok(rest)
                },
                Err(e) => Err(locate(e, "Destination", "ip_version")),
            }
        } else if tag == 2 {
            match take_bytes(wire_type, buf) {
                Ok((v, rest)) => {
                    self.prefix = v;
                    Ok(rest)
                },
                Err(e) => Err(locate(e, "Destination", "prefix")),
            }
        } else if tag == 3 {
            match take_number(wire_type, buf) {
                Ok((v, rest)) => {
                    self.prefix_length = take_low32(v);
                    Ok(rest)
                },
                Err(e) => Err(locate(e, "Destination", "prefix_length")),
            }
        } else {
            skip_unknown(tag, wire_type, buf, true)
        }
    }

    /// Merges the value of a field that holds such a message into this one. Returns the bytes
    /// behind the field.
    fn merge_nested<'a>(&mut self, wire_type: WireType, buf: &'a [u8]) -> (r: Result<
        &'a [u8],
        DecodeError,
    >)
        ensures
            merged(
                read_message(old(self)@, wire_type, buf@, DestinationView::merging()),
                final(self)@,
                r,
                buf@,
            ),
    {
        let (len, value) = match take_length(wire_type, buf) {
            Ok(length) => length,
            Err(e) => return Err(e),
        };
        let limit: usize = value.len() - len;
        let mut rest = value;
        let ghost merge = DestinationView::merging();
        while rest.len() > limit
            invariant
                merge == DestinationView::merging(),
                read_message(old(self)@, wire_type, buf@, merge) == merge_fields(
                    self@,
                    rest@,
                    limit as nat,
                    merge,
                ),
                rest@.len() <= buf@.len(),
            decreases rest@.len(),
        {
            proof {
                reveal(merge_fields);
            }
            let (tag, field_type, field) = match take_key(rest) {
                Ok(key) => key,
                Err(e) => return Err(e),
            };
            rest = match self.merge_field(tag, field_type, field) {
                Ok(rest) => rest,
                Err(e) => return Err(e),
            };
        }
        proof {
            reveal(merge_fields);
        }
        if rest.len() < limit {
            Err(length_exceeded())
        } else {
            Ok(rest)
        }
    }
}

// ----------------------------------------------------------------------------
// Next hop
// ----------------------------------------------------------------------------

/// Where a route sends packets.
#[derive(Debug)]
pub struct NextHop {
    pub target_address: Vec<u8>,
    pub target_vni: u32,
    pub hop_type: i32,
    pub nat_port_range_from: u32,
    pub nat_port_range_to: u32,
}

/// The mathematical form of a [`NextHop`].
#[verifier::ext_equal]
pub struct NextHopView {
    pub target_address: Seq<u8>,
    pub target_vni: u32,
    pub hop_type: i32,
    pub nat_port_range_from: u32,
    pub nat_port_range_to: u32,
}

impl View for NextHop {
    type V = NextHopView;

    open spec fn view(&self) -> NextHopView {
        NextHopView {
            target_address: self.target_address@,
            target_vni: self.target_vni,
            hop_type: self.hop_type,
            nat_port_range_from: self.nat_port_range_from,
            nat_port_range_to: self.nat_port_range_to,
        }
    }
}

proof fn lemma_regroup(a: Seq<u8>, b: Seq<u8>, c: Seq<u8>, d: Seq<u8>, e: Seq<u8>, f: Seq<u8>)
    ensures
        a + b + c + d + e + f == a + (b + (c + (d + (e + f)))),
{
    assert(a + b + c + d + e + f =~= a + (b + (c + (d + (e + f)))));
}

impl NextHopView {
    pub open spec fn spec_default() -> NextHopView {
        NextHopView {
            target_address: Seq::empty(),
            target_vni: 0,
            hop_type: 0,
            nat_port_range_from: 0,
            nat_port_range_to: 0,
        }
    }

    /// The bytes of the message.
    pub open spec fn bytes(self) -> Seq<u8> {
        bytes_field(1, self.target_address) + number_field(2, self.target_vni as nat)
            + number_field(3, int_bits(self.hop_type) as nat) + number_field(
            4,
            self.nat_port_range_from as nat,
        ) + number_field(5, self.nat_port_range_to as nat)
    }

    /// The message with a field merged into it, given the bytes behind the field's key, and the
    /// bytes behind the field.
    pub open spec fn merge(self, tag: u32, wire_type: WireType, s: Seq<u8>) -> Result<
        (NextHopView, Seq<u8>),
        DecodeError,
    > {
        if tag == 1 {
            match read_bytes(wire_type, s) {
                Ok((v, rest)) => Ok((NextHopView { target_address: v, ..self }, rest)),
                Err(e) => Err(located(e, "NextHop"@, "target_address"@)),
            }
        } else if tag == 2 {
            match read_number(wire_type, s) {
                Ok((v, rest)) => Ok((NextHopView { target_vni: low32(v), ..self }, rest)),
                Err(e) => Err(located(e, "NextHop"@, "target_vni"@)),
            }
        } else if tag == 3 {
            match read_number(wire_type, s) {
                Ok((v, rest)) => Ok((NextHopView { hop_type: low32_signed(v), ..self }, rest)),
                Err(e) => Err(located(e, "NextHop"@, "r#type"@)),
            }
        } else if tag == 4 {
            match read_number(wire_type, s) {
                Ok((v, rest)) => Ok((NextHopView { nat_port_range_from: low32(v), ..self }, rest)),
                Err(e) => Err(located(e, "NextHop"@, "nat_port_range_from"@)),
            }
        } else if tag == 5 {
            match read_number(wire_type, s) {
                Ok((v, rest)) => Ok((NextHopView { nat_port_range_to: low32(v), ..self }, rest)),
                Err(e) => Err(located(e, "NextHop"@, "nat_port_range_to"@)),
            }
        } else {
            match skip(tag, wire_type, s, true) {
                Ok(rest) => Ok((self, rest)),
                Err(e) => Err(e),
            }
        }
    }

    /// A field changes only what it stands for, and a field that is not known changes nothing.
    pub proof fn lemma_merge_means(self, tag: u32, wire_type: WireType, s: Seq<u8>)
        ensures
            self.merge(tag, wire_type, s) matches Ok((m, _)) ==> {
                &&& tag != 1 ==> m.target_address == self.target_address
                &&& tag != 2 ==> m.target_vni == self.target_vni
                &&& tag != 3 ==> m.hop_type == self.hop_type
                &&& tag != 4 ==> m.nat_port_range_from == self.nat_port_range_from
                &&& tag != 5 ==> m.nat_port_range_to == self.nat_port_range_to
            },
            !(1 <= tag <= 5) ==> (self.merge(tag, wire_type, s) is Ok <==> skip(
                tag,
                wire_type,
                s,
                true,
            ) is Ok),
            !(1 <= tag <= 5) ==> (self.merge(tag, wire_type, s) matches Ok((_, rest)) ==> skip(
                tag,
                wire_type,
                s,
                true,
            ) == Ok::<Seq<u8>, DecodeError>(rest)),
            tag == 2 ==> (self.merge(tag, wire_type, s) matches Ok((m, rest)) ==> (read_number(
                wire_type,
                s,
            ) matches Ok((v, behind)) && rest == behind && m.target_vni == v % 0x1_0000_0000)),
            tag == 3 ==> (self.merge(tag, wire_type, s) matches Ok((m, rest)) ==> (read_number(
                wire_type,
                s,
            ) matches Ok((v, behind)) && rest == behind && m.hop_type == low32_signed(v))),
            tag == 4 ==> (self.merge(tag, wire_type, s) matches Ok((m, rest)) ==> (read_number(
                wire_type,
                s,
            ) matches Ok((v, behind)) && rest == behind && m.nat_port_range_from == v % 0x1_0000_0000)),
            tag == 5 ==> (self.merge(tag, wire_type, s) matches Ok((m, rest)) ==> (read_number(
                wire_type,
                s,
            ) matches Ok((v, behind)) && rest == behind && m.nat_port_range_to == v % 0x1_0000_0000)),
            tag == 1 ==> (self.merge(tag, wire_type, s) matches Ok((m, rest)) ==> (read_bytes(
                wire_type,
                s,
            ) matches Ok((v, behind)) && rest == behind && m.target_address == v)),
    {
    }

    pub open spec fn merging() -> spec_fn(NextHopView, u32, WireType, Seq<u8>) -> Result<
        (NextHopView, Seq<u8>),
        DecodeError,
    > {
        |m: NextHopView, tag: u32, wire_type: WireType, s: Seq<u8>| m.merge(tag, wire_type, s)
    }

    /// The fields on the wire: the bytes of the address have number one, then come the target VNI,
    /// the type and the first and the last port.
    pub proof fn lemma_bytes(self)
        ensures
            self.bytes() == (if self.target_address.len() != 0 {
                seq![0x0au8] + varint(self.target_address.len()) + self.target_address
            } else {
                Seq::empty()
            }) + (if self.target_vni != 0 {
                seq![0x10u8] + varint(self.target_vni as nat)
            } else {
                Seq::empty()
            }) + (if self.hop_type != 0 {
                seq![0x18u8] + varint(int_bits(self.hop_type) as nat)
            } else {
                Seq::empty()
            }) + (if self.nat_port_range_from != 0 {
                seq![0x20u8] + varint(self.nat_port_range_from as nat)
            } else {
                Seq::empty()
            }) + (if self.nat_port_range_to != 0 {
                seq![0x28u8] + varint(self.nat_port_range_to as nat)
            } else {
                Seq::empty()
            }),
    {
        lemma_field_bytes(1, 0, self.target_address);
        lemma_field_bytes(2, self.target_vni as nat, Seq::empty());
        lemma_field_bytes(3, int_bits(self.hop_type) as nat, Seq::empty());
        lemma_field_bytes(4, self.nat_port_range_from as nat, Seq::empty());
        lemma_field_bytes(5, self.nat_port_range_to as nat, Seq::empty());
    }

    /// Merging what was encoded into an empty message gives the message back, whatever follows.
    pub proof fn lemma_round_trip(self, rest: Seq<u8>)
        requires
            self.target_address.len() <= u64::MAX,
        ensures
            merge_fields(
                NextHopView::spec_default(),
                self.bytes() + rest,
                rest.len(),
                NextHopView::merging(),
            ) == Ok::<(NextHopView, Seq<u8>), DecodeError>((self, rest)),
    {
        let limit = rest.len();
        let merge = NextHopView::merging();
        let vni = self.target_vni as u64;
        let hop_type = int_bits(self.hop_type);
        let from = self.nat_port_range_from as u64;
        let to = self.nat_port_range_to as u64;
        let b5 = number_field(5, to as nat) + rest;
        let b4 = number_field(4, from as nat) + b5;
        let b3 = number_field(3, hop_type as nat) + b4;
        let b2 = number_field(2, vni as nat) + b3;
        lemma_regroup(
            bytes_field(1, self.target_address),
            number_field(2, vni as nat),
            number_field(3, hop_type as nat),
            number_field(4, from as nat),
            number_field(5, to as nat),
            rest,
        );
        let m = NextHopView::spec_default();
        let m1 = NextHopView { target_address: self.target_address, ..m };
        let m2 = NextHopView { target_vni: self.target_vni, ..m1 };
        let m3 = NextHopView { hop_type: self.hop_type, ..m2 };
        let m4 = NextHopView { nat_port_range_from: self.nat_port_range_from, ..m3 };
        assert(merge_fields(m, bytes_field(1, self.target_address) + b2, limit, merge)
            == merge_fields(m1, b2, limit, merge)) by {
            assert(self.target_address.len() == 0 ==> m =~= m1);
            lemma_read_bytes(self.target_address, b2);
            lemma_merge_bytes(m, 1, self.target_address, b2, limit, merge, m1);
        }
        assert(merge_fields(m1, b2, limit, merge) == merge_fields(m2, b3, limit, merge)) by {
            lemma_read_number(vni, b3);
            lemma_merge_number(m1, 2, vni, b3, limit, merge, m2);
        }
        assert(merge_fields(m2, b3, limit, merge) == merge_fields(m3, b4, limit, merge)) by {
            lemma_read_number(hop_type, b4);
            lemma_merge_number(m2, 3, hop_type, b4, limit, merge, m3);
        }
        assert(merge_fields(m3, b4, limit, merge) == merge_fields(m4, b5, limit, merge)) by {
            lemma_read_number(from, b5);
            lemma_merge_number(m3, 4, from, b5, limit, merge, m4);
        }
        assert(merge_fields(m4, b5, limit, merge) == merge_fields(self, rest, limit, merge)) by {
            lemma_read_number(to, rest);
            lemma_merge_number(m4, 5, to, rest, limit, merge, self);
        }
        lemma_merge_none(self, rest, merge);
    }
}

impl NextHop {
    /// Encodes the message.
    pub fn encode(&self) -> (r: Vec<u8>)
        ensures
            r@ == self@.bytes(),
    {
        let mut buf: Vec<u8> = Vec::new();
        put_bytes_field(&mut buf, 1, &self.target_address);
        put_number_field(&mut buf, 2, self.target_vni as u64);
        put_number_field(&mut buf, 3, to_int_bits(self.hop_type));
        put_number_field(&mut buf, 4, self.nat_port_range_from as u64);
        put_number_field(&mut buf, 5, self.nat_port_range_to as u64);
        assert(buf@ =~= self@.bytes());
        buf
    }

    /// Merges a field into the message, given the bytes behind the field's key. Returns the bytes
    /// behind the field.
    fn merge_field<'a>(&mut self, tag: u32, wire_type: WireType, buf: &'a [u8]) -> (r: Result<
        &'a [u8],
        DecodeError,
    >)
        requires
            1 <= tag < 0x2000_0000,
        ensures
            merged(old(self)@.merge(tag, wire_type, buf@), final(self)@, r, buf@),
    {
        if tag == 1 {
            match take_bytes(wire_type, buf) {
                Ok((v, rest)) => {
                    self.target_address = v;
                    Ok(rest)
                },
                Err(e) => Err(locate(e, "NextHop", "target_address")),
            }
        } else if tag == 2 {
            match take_number(wire_type, buf) {
                Ok((v, rest)) => {
                    self.target_vni = take_low32(v);
                    Ok(rest)
                },
                Err(e) => Err(locate(e, "NextHop", "target_vni")),
            }
        } else if tag == 3 {
            match take_number(wire_type, buf) {
                Ok((v, rest)) => {
                    self.hop_type = take_low32_signed(v);
                    Ok(rest)
                },
                Err(e) => Err(locate(e, "NextHop", "r#type")),
            }
        } else if tag == 4 {
            match take_number(wire_type, buf) {
                Ok((v, rest)) => {
                    self.nat_port_range_from = take_low32(v);
                    Ok(rest)
                },
                Err(e) => Err(locate(e, "NextHop", "nat_port_range_from")),
            }
        } else if tag == 5 {
            match take_number(wire_type, buf) {
                Ok((v, rest)) => {
                    self.nat_port_range_to = take_low32(v);
                    Ok(rest)
                },
                Err(e) => Err(locate(e, "NextHop", "nat_port_range_to")),
            }
        } else {
            skip_unknown(tag, wire_type, buf, true)
        }
    }

    /// Merges the value of a field that holds such a message into this one. Returns the bytes
    /// behind the field.
    fn merge_nested<'a>(&mut self, wire_type: WireType, buf: &'a [u8]) -> (r: Result<
        &'a [u8],
        DecodeError,
    >)
        ensures
            merged(
                read_message(old(self)@, wire_type, buf@, NextHopView::merging()),
                final(self)@,
                r,
                buf@,
            ),
    {
        let (len, value) = match take_length(wire_type, buf) {
            Ok(length) => length,
            Err(e) => return Err(e),
        };
        let limit: usize = value.len() - len;
        let mut rest = value;
        let ghost merge = NextHopView::merging();
        while rest.len() > limit
            invariant
                merge == NextHopView::merging(),
                read_message(old(self)@, wire_type, buf@, merge) == merge_fields(
                    self@,
                    rest@,
                    limit as nat,
                    merge,
                ),
                rest@.len() <= buf@.len(),
            decreases rest@.len(),
        {
            proof {
                reveal(merge_fields);
            }
            let (tag, field_type, field) = match take_key(rest) {
                Ok(key) => key,
                Err(e) => return Err(e),
            };
            rest = match self.merge_field(tag, field_type, field) {
                Ok(rest) => rest,
                Err(e) => return Err(e),
            };
        }
        proof {
            reveal(merge_fields);
        }
        if rest.len() < limit {
            Err(length_exceeded())
        } else {
            Ok(rest)
        }
    }
}

// ----------------------------------------------------------------------------
// Update
// ----------------------------------------------------------------------------

/// The announcement or withdrawal of a route.
#[derive(Debug)]
pub struct Update {
    pub action: i32,
    pub vni: u32,
    pub destination: Option<Destination>,
    pub next_hop: Option<NextHop>,
}

/// The mathematical form of an [`Update`].
#[verifier::ext_equal]
pub struct UpdateView {
    pub action: i32,
    pub vni: u32,
    pub destination: Option<DestinationView>,
    pub next_hop: Option<NextHopView>,
}

impl View for Update {
    type V = UpdateView;

    open spec fn view(&self) -> UpdateView {
        UpdateView {
            action: self.action,
            vni: self.vni,
            destination: match self.destination {
                Some(d) => Some(d@),
                None => None,
            },
            next_hop: match self.next_hop {
                Some(h) => Some(h@),
                None => None,
            },
        }
    }
}

impl UpdateView {
    pub open spec fn spec_default() -> UpdateView {
        UpdateView { action: 0, vni: 0, destination: None, next_hop: None }
    }

    /// The bytes of the destination's field.
    pub open spec fn destination_bytes(self) -> Seq<u8> {
        match self.destination {
            Some(d) => message_field(3, d.bytes()),
            None => Seq::empty(),
        }
    }

    /// The bytes of the next hop's field.
    pub open spec fn next_hop_bytes(self) -> Seq<u8> {
        match self.next_hop {
            Some(h) => message_field(4, h.bytes()),
            None => Seq::empty(),
        }
    }

    /// The bytes of the message.
    pub open spec fn bytes(self) -> Seq<u8> {
        number_field(1, int_bits(self.action) as nat) + number_field(2, self.vni as nat)
            + self.destination_bytes() + self.next_hop_bytes()
    }

    /// The destination to merge a field into.
    pub open spec fn destination_or_default(self) -> DestinationView {
        match self.destination {
            Some(d) => d,
            None => DestinationView::spec_default(),
        }
    }

    /// The next hop to merge a field into.
    pub open spec fn next_hop_or_default(self) -> NextHopView {
        match self.next_hop {
            Some(h) => h,
            None => NextHopView::spec_default(),
        }
    }

    /// The message with a field merged into it, given the bytes behind the field's key, and the
    /// bytes behind the field.
    pub open spec fn merge(self, tag: u32, wire_type: WireType, s: Seq<u8>) -> Result<
        (UpdateView, Seq<u8>),
        DecodeError,
    > {
        if tag == 1 {
            match read_number(wire_type, s) {
                Ok((v, rest)) => Ok((UpdateView { action: low32_signed(v), ..self }, rest)),
                Err(e) => Err(located(e, "Update"@, "action"@)),
            }
        } else if tag == 2 {
            match read_number(wire_type, s) {
                Ok((v, rest)) => Ok((UpdateView { vni: low32(v), ..self }, rest)),
                Err(e) => Err(located(e, "Update"@, "vni"@)),
            }
        } else if tag == 3 {
            match read_message(
                self.destination_or_default(),
                wire_type,
                s,
                DestinationView::merging(),
            ) {
                Ok((v, rest)) => Ok((UpdateView { destination: Some(v), ..self }, rest)),
                Err(e) => Err(located(e, "Update"@, "destination"@)),
            }
        } else if tag == 4 {
            match read_message(self.next_hop_or_default(), wire_type, s, NextHopView::merging()) {
                Ok((v, rest)) => Ok((UpdateView { next_hop: Some(v), ..self }, rest)),
                Err(e) => Err(located(e, "Update"@, "next_hop"@)),
            }
        } else {
            match skip(tag, wire_type, s, false) {
                Ok(rest) => Ok((self, rest)),
                Err(e) => Err(e),
            }
        }
    }

    /// A field changes only what it stands for, and a field that is not known changes nothing.
    pub proof fn lemma_merge_means(self, tag: u32, wire_type: WireType, s: Seq<u8>)
        ensures
            self.merge(tag, wire_type, s) matches Ok((m, _)) ==> {
                &&& tag != 1 ==> m.action == self.action
                &&& tag != 2 ==> m.vni == self.vni
                &&& tag != 3 ==> m.destination == self.destination
                &&& tag != 4 ==> m.next_hop == self.next_hop
            },
            !(1 <= tag <= 4) ==> (self.merge(tag, wire_type, s) is Ok <==> skip(
                tag,
                wire_type,
                s,
                false,
            ) is Ok),
            !(1 <= tag <= 4) ==> (self.merge(tag, wire_type, s) matches Ok((_, rest)) ==> skip(
                tag,
                wire_type,
                s,
                false,
            ) == Ok::<Seq<u8>, DecodeError>(rest)),
            tag == 1 ==> (self.merge(tag, wire_type, s) matches Ok((m, rest)) ==> (read_number(
                wire_type,
                s,
            ) matches Ok((v, behind)) && rest == behind && m.action == low32_signed(v))),
            tag == 2 ==> (self.merge(tag, wire_type, s) matches Ok((m, rest)) ==> (read_number(
                wire_type,
                s,
            ) matches Ok((v, behind)) && rest == behind && m.vni == v % 0x1_0000_0000)),
    {
    }

    pub open spec fn merging() -> spec_fn(UpdateView, u32, WireType, Seq<u8>) -> Result<
        (UpdateView, Seq<u8>),
        DecodeError,
    > {
        |m: UpdateView, tag: u32, wire_type: WireType, s: Seq<u8>| m.merge(tag, wire_type, s)
    }

    /// The message that some bytes hold.
    pub open spec fn from_bytes(s: Seq<u8>) -> Result<UpdateView, DecodeError> {
        match merge_fields(UpdateView::spec_default(), s, 0, UpdateView::merging()) {
            Ok((m, _)) => Ok(m),
            Err(e) => Err(e),
        }
    }

    /// The fields on the wire: the action has number one, the VNI has two, the destination has
    /// three and the next hop has four.
    pub proof fn lemma_bytes(self)
        ensures
            self.bytes() == (if self.action != 0 {
                seq![0x08u8] + varint(int_bits(self.action) as nat)
            } else {
                Seq::empty()
            }) + (if self.vni != 0 {
                seq![0x10u8] + varint(self.vni as nat)
            } else {
                Seq::empty()
            }) + (match self.destination {
                Some(d) => seq![0x1au8] + varint(d.bytes().len()) + d.bytes(),
                None => Seq::empty(),
            }) + (match self.next_hop {
                Some(h) => seq![0x22u8] + varint(h.bytes().len()) + h.bytes(),
                None => Seq::empty(),
            }),
    {
        lemma_field_bytes(1, int_bits(self.action) as nat, Seq::empty());
        lemma_field_bytes(2, self.vni as nat, Seq::empty());
        if let Some(d) = self.destination {
            lemma_field_bytes(3, 0, d.bytes());
        }
        if let Some(h) = self.next_hop {
            lemma_field_bytes(4, 0, h.bytes());
        }
    }

    /// The lengths of the nested messages can be written down.
    pub open spec fn lengths_fit(self) -> bool {
        &&& self.destination matches Some(d) ==> d.prefix.len() <= u64::MAX && d.bytes().len()
            <= u64::MAX
        &&& self.next_hop matches Some(h) ==> h.target_address.len() <= u64::MAX
            && h.bytes().len() <= u64::MAX
    }

    /// Merging the field of a destination into a message that has none.
    proof fn lemma_merge_destination(self, destination: Option<DestinationView>, rest: Seq<u8>)
        requires
            self.destination is None,
            (UpdateView { destination, ..self }).lengths_fit(),
        ensures
            merge_fields(
                self,
                UpdateView { destination, ..self }.destination_bytes() + rest,
                0,
                UpdateView::merging(),
            ) == merge_fields(UpdateView { destination, ..self }, rest, 0, UpdateView::merging()),
    {
        let next = UpdateView { destination, ..self };
        match destination {
            Some(d) => {
                lemma_read_length(d.bytes().len(), d.bytes() + rest);
                d.lemma_round_trip(rest);
                lemma_merge_message(self, 3, d.bytes(), rest, 0, UpdateView::merging(), next);
            },
            None => assert(next.destination_bytes() + rest =~= rest),
        }
    }

    /// Merging the field of a next hop into a message that has none.
    proof fn lemma_merge_next_hop(self, next_hop: Option<NextHopView>, rest: Seq<u8>)
        requires
            self.next_hop is None,
            (UpdateView { next_hop, ..self }).lengths_fit(),
        ensures
            merge_fields(
                self,
                UpdateView { next_hop, ..self }.next_hop_bytes() + rest,
                0,
                UpdateView::merging(),
            ) == merge_fields(UpdateView { next_hop, ..self }, rest, 0, UpdateView::merging()),
    {
        let next = UpdateView { next_hop, ..self };
        match next_hop {
            Some(h) => {
                lemma_read_length(h.bytes().len(), h.bytes() + rest);
                h.lemma_round_trip(rest);
                lemma_merge_message(self, 4, h.bytes(), rest, 0, UpdateView::merging(), next);
            },
            None => assert(next.next_hop_bytes() + rest =~= rest),
        }
    }

    /// Decoding what was encoded gives the message back.
    pub proof fn lemma_round_trip(self)
        requires
            self.lengths_fit(),
        ensures
            UpdateView::from_bytes(self.bytes()) == Ok::<UpdateView, DecodeError>(self),
    {
        let none = Seq::<u8>::empty();
        let merge = UpdateView::merging();
        let action = int_bits(self.action);
        let vni = self.vni as u64;
        let b4 = self.next_hop_bytes() + none;
        let b3 = self.destination_bytes() + b4;
        let b2 = number_field(2, vni as nat) + b3;
        assert(self.bytes() =~= number_field(1, action as nat) + b2);
        let m = UpdateView::spec_default();
        let m1 = UpdateView { action: self.action, ..m };
        let m2 = UpdateView { vni: self.vni, ..m1 };
        let m3 = UpdateView { destination: self.destination, ..m2 };
        assert(merge_fields(m, self.bytes(), 0, merge) == merge_fields(m1, b2, 0, merge)) by {
            lemma_read_number(action, b2);
            lemma_merge_number(m, 1, action, b2, 0, merge, m1);
        }
        assert(merge_fields(m1, b2, 0, merge) == merge_fields(m2, b3, 0, merge)) by {
            lemma_read_number(vni, b3);
            lemma_merge_number(m1, 2, vni, b3, 0, merge, m2);
        }
        m2.lemma_merge_destination(self.destination, b4);
        m3.lemma_merge_next_hop(self.next_hop, none);
        lemma_merge_none(self, none, merge);
    }
}

impl Update {
    /// Encodes the message.
    pub fn encode(&self) -> (r: Vec<u8>)
        ensures
            r@ == self@.bytes(),
    {
        let mut buf: Vec<u8> = Vec::new();
        put_number_field(&mut buf, 1, to_int_bits(self.action));
        put_number_field(&mut buf, 2, self.vni as u64);
        if let Some(destination) = &self.destination {
            put_message_field(&mut buf, 3, &destination.encode());
        }
        if let Some(next_hop) = &self.next_hop {
            put_message_field(&mut buf, 4, &next_hop.encode());
        }
        assert(buf@ =~= self@.bytes());
        buf
    }

    /// Merges a field into the message, given the bytes behind the field's key. Returns the bytes
    /// behind the field.
    fn merge_field<'a>(&mut self, tag: u32, wire_type: WireType, buf: &'a [u8]) -> (r: Result<
        &'a [u8],
        DecodeError,
    >)
        requires
            1 <= tag < 0x2000_0000,
        ensures
            merged(old(self)@.merge(tag, wire_type, buf@), final(self)@, r, buf@),
    {
        if tag == 1 {
            match take_number(wire_type, buf) {
                Ok((v, rest)) => {
                    self.action = take_low32_signed(v);
                    Ok(rest)
                },
                Err(e) => Err(locate(e, "Update", "action")),
            }
        } else if tag == 2 {
            match take_number(wire_type, buf) {
                Ok((v, rest)) => {
                    self.vni = take_low32(v);
                    Ok(rest)
                },
                Err(e) => Err(locate(e, "Update", "vni")),
            }
        } else if tag == 3 {
            let mut destination = match self.destination.take() {
                Some(v) => v,
                None => Destination { ip_version: 0, prefix: Vec::new(), prefix_length: 0 },
            };
            assert(destination@ =~= old(self)@.destination_or_default());
            match destination.merge_nested(wire_type, buf) {
                Ok(rest) => {
                    self.destination = Some(destination);
                    Ok(rest)
                },
                Err(e) => Err(locate(e, "Update", "destination")),
            }
        } else if tag == 4 {
            let mut next_hop = match self.next_hop.take() {
                Some(v) => v,
                None => NextHop {
                    target_address: Vec::new(),
                    target_vni: 0,
                    hop_type: 0,
                    nat_port_range_from: 0,
                    nat_port_range_to: 0,
                },
            };
            assert(next_hop@ =~= old(self)@.next_hop_or_default());
            match next_hop.merge_nested(wire_type, buf) {
                Ok(rest) => {
                    self.next_hop = Some(next_hop);
                    Ok(rest)
                },
                Err(e) => Err(locate(e, "Update", "next_hop")),
            }
        } else {
            skip_unknown(tag, wire_type, buf, false)
        }
    }

    /// Decodes a message.
    pub fn decode(buf: &[u8]) -> (r: Result<Update, DecodeError>)
        ensures
            match UpdateView::from_bytes(buf@) {
                Ok(m) => r matches Ok(x) && x@ == m,
                Err(error) => r matches Err(e) && e == error,
            },
    {
        let mut m = Update { action: 0, vni: 0, destination: None, next_hop: None };
        let mut rest = buf;
        let ghost merge = UpdateView::merging();
        while rest.len() > 0
            invariant
                merge == UpdateView::merging(),
                merge_fields(UpdateView::spec_default(), buf@, 0, merge) == merge_fields(
                    m@,
                    rest@,
                    0,
                    merge,
                ),
            decreases rest@.len(),
        {
            proof {
                reveal(merge_fields);
            }
            let (tag, field_type, field) = match take_key(rest) {
                Ok(key) => key,
                Err(e) => return Err(e),
            };
            rest = match m.merge_field(tag, field_type, field) {
                Ok(rest) => rest,
                Err(e) => return Err(e),
            };
        }
        proof {
            lemma_merge_none(m@, rest@, merge);
        }
        Ok(m)
    }
}

} // verus!
