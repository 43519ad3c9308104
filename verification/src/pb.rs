//! Protobuf fields as bytes: what a field looks like on the wire, and how the fields of a payload
//! are read one after the other. The encoding primitives come from `prost`.

use prost::DecodeError;
use vstd::prelude::*;
use vstd::slice::{slice_subrange, slice_to_vec};

use crate::text::decimal;

verus! {

/// The wire types of Protobuf fields.
#[derive(Debug, Clone, Copy, PartialEq, Eq, Structural)]
pub enum WireType {
    Varint,
    SixtyFourBit,
    LengthDelimited,
    StartGroup,
    EndGroup,
    ThirtyTwoBit,
}

impl WireType {
    /// The three bits that stand for the wire type in a field's key.
    pub open spec fn spec_code(self) -> nat {
        match self {
            WireType::Varint => 0,
            WireType::SixtyFourBit => 1,
            WireType::LengthDelimited => 2,
            WireType::StartGroup => 3,
            WireType::EndGroup => 4,
            WireType::ThirtyTwoBit => 5,
        }
    }

    /// The wire type that three bits of a key stand for.
    pub open spec fn from_code(code: nat) -> Option<WireType> {
        if code == 0 {
            Some(WireType::Varint)
        } else if code == 1 {
            Some(WireType::SixtyFourBit)
        } else if code == 2 {
            Some(WireType::LengthDelimited)
        } else if code == 3 {
            Some(WireType::StartGroup)
        } else if code == 4 {
            Some(WireType::EndGroup)
        } else if code == 5 {
            Some(WireType::ThirtyTwoBit)
        } else {
            None
        }
    }

    /// The wire type's name as error texts give it.
    pub open spec fn spec_name(self) -> Seq<char> {
        match self {
            WireType::Varint => "Varint"@,
            WireType::SixtyFourBit => "SixtyFourBit"@,
            WireType::LengthDelimited => "LengthDelimited"@,
            WireType::StartGroup => "StartGroup"@,
            WireType::EndGroup => "EndGroup"@,
            WireType::ThirtyTwoBit => "ThirtyTwoBit"@,
        }
    }

    fn name(self) -> (r: &'static str)
        ensures
            r@ == self.spec_name(),
    {
        match self {
            WireType::Varint => "Varint",
            WireType::SixtyFourBit => "SixtyFourBit",
            WireType::LengthDelimited => "LengthDelimited",
            WireType::StartGroup => "StartGroup",
            WireType::EndGroup => "EndGroup",
            WireType::ThirtyTwoBit => "ThirtyTwoBit",
        }
    }
}

// ----------------------------------------------------------------------------
// Varints
// ----------------------------------------------------------------------------

/// A number as a varint: seven bits a byte, lowest bits first, with the top bit set on every byte
/// but the last.
pub open spec fn varint(v: nat) -> Seq<u8>
    decreases v,
{
    if v < 128 {
        seq![v as u8]
    } else {
        seq![(v % 128 + 128) as u8] + varint(v / 128)
    }
}

/// The varint at the front of `s`, with `place` of its bytes already read: its value and how many
/// bytes of `s` it takes. A varint has at most ten bytes, and the tenth holds a single bit.
pub open spec fn read_varint_at(s: Seq<u8>, place: nat) -> Option<(nat, nat)>
    decreases s.len(),
{
    if s.len() == 0 || place >= 10 {
        None
    } else if s[0] < 128 {
        if place == 9 && s[0] >= 2 {
            None
        } else {
            Some((s[0] as nat, 1))
        }
    } else {
        match read_varint_at(s.skip(1), place + 1) {
            Some((v, n)) => Some(((v * 128 + (s[0] - 128)) as nat, n + 1)),
            None => None,
        }
    }
}

/// The varint at the front of `s`: its value and how many bytes it takes.
pub open spec fn read_varint(s: Seq<u8>) -> Option<(nat, nat)> {
    read_varint_at(s, 0)
}

/// How many values the bytes of a varint from `place` on can hold.
spec fn varint_room(place: nat) -> nat
    decreases 9 - place,
{
    if place >= 9 {
        2
    } else {
        128 * varint_room(place + 1)
    }
}

proof fn lemma_read_varint_at(v: nat, rest: Seq<u8>, place: nat)
    requires
        place <= 9,
        v < varint_room(place),
    ensures
        read_varint_at(varint(v) + rest, place) == Some((v, varint(v).len())),
        varint(v).len() <= 10 - place,
    decreases v,
{
    let s = varint(v) + rest;
    if v < 128 {
        assert(s[0] == v as u8);
    } else {
        assert(place < 9);
        lemma_read_varint_at(v / 128, rest, place + 1);
        assert(s[0] == (v % 128 + 128) as u8);
        assert(s.skip(1) =~= varint(v / 128) + rest);
    }
}

/// A number written as a varint is read back, whatever follows it.
pub proof fn lemma_varint_round_trip(v: nat, rest: Seq<u8>)
    requires
        v <= u64::MAX,
    ensures
        read_varint(varint(v) + rest) == Some((v, varint(v).len())),
        1 <= varint(v).len() <= 10,
{
    assert(varint_room(0) == 0x1_0000_0000_0000_0000) by {
        reveal_with_fuel(varint_room, 10);
    }
    lemma_read_varint_at(v, rest, 0);
}

proof fn lemma_varint_at_bound(s: Seq<u8>, place: nat)
    ensures
        read_varint_at(s, place) matches Some((v, n)) ==> v < varint_room(place) && 1 <= n
            <= s.len(),
    decreases s.len(),
{
    if s.len() > 0 && place < 10 && s[0] >= 128 {
        lemma_varint_at_bound(s.skip(1), place + 1);
        if place == 9 {
            assert(read_varint_at(s.skip(1), 10) is None);
        }
    } else if s.len() > 0 && place < 9 {
        assert(varint_room(place) >= 128) by {
            lemma_varint_room_positive(place + 1);
        }
    }
}

proof fn lemma_varint_room_positive(place: nat)
    ensures
        varint_room(place) >= 1,
    decreases 9 - place,
{
    if place < 9 {
        lemma_varint_room_positive(place + 1);
    }
}

/// A varint is no longer than the bytes it is read from and holds no more than 64 bits.
pub proof fn lemma_read_varint_bound(s: Seq<u8>)
    ensures
        read_varint(s) matches Some((v, n)) ==> v <= u64::MAX && 1 <= n <= s.len(),
{
    lemma_varint_at_bound(s, 0);
    assert(varint_room(0) == 0x1_0000_0000_0000_0000) by {
        reveal_with_fuel(varint_room, 10);
    }
}

/// Appends a number with `prost::encoding::encode_varint`, which writes it as [`varint`] says.
#[verifier::external_body]
fn put_varint(buf: &mut Vec<u8>, value: u64)
    ensures
        final(buf)@ == old(buf)@ + varint(value as nat),
{
    prost::encoding::encode_varint(value, buf);
}

/// The error that a description makes, with no place in a message attached to it.
pub uninterp spec fn described(description: Seq<char>) -> DecodeError;

/// Makes an error with `prost::DecodeError::new`. The error is the one that [`described`] names; it
/// depends on the description alone.
#[verifier::external_body]
fn decode_error(description: String) -> (r: DecodeError)
    ensures
        r == described(description@),
{
    DecodeError::new(description)
}

/// An error with one more place attached to it: a message's name and that of a field in it.
pub uninterp spec fn located(e: DecodeError, message: Seq<char>, field: Seq<char>) -> DecodeError;

/// Attaches a place to an error with `prost::DecodeError::push`. The error is the one that
/// [`located`] names; it depends on the error before and on the two names alone.
#[verifier::external_body]
pub(crate) fn locate(e: DecodeError, message: &'static str, field: &'static str) -> (r: DecodeError)
    ensures
        r == located(e, message@, field@),
{
    let mut located = e;
    located.push(message, field);
    located
}

/// Reads a number from the front of `buf` with `prost::encoding::decode_varint` and returns it
/// with the bytes behind it. It is an error exactly where [`read_varint`] finds no varint.
#[verifier::external_body]
fn take_varint(buf: &[u8]) -> (r: Result<(u64, &[u8]), DecodeError>)
    ensures
        match read_varint(buf@) {
            Some((w, n)) => r matches Ok((v, rest)) && v == w && rest@ == buf@.skip(n as int),
            None => r matches Err(e) && e == described("invalid varint"@),
        },
{
    let mut rest = buf;
    let value = prost::encoding::decode_varint(&mut rest)?;
    Ok((value, rest))
}

// ----------------------------------------------------------------------------
// Fields
// ----------------------------------------------------------------------------

/// The key at the front of a field: its number and its wire type.
pub open spec fn key(tag: nat, wire_type: WireType) -> Seq<u8> {
    varint(tag * 8 + wire_type.spec_code())
}

/// The key at the front of `s`: field number, wire type and the bytes behind it.
pub open spec fn read_key(s: Seq<u8>) -> Result<(u32, WireType, Seq<u8>), DecodeError> {
    match read_varint(s) {
        Some((k, n)) => if k > u32::MAX {
            Err(described("invalid key value: "@ + decimal(k)))
        } else {
            match WireType::from_code(k % 8) {
                Some(wire_type) => if k / 8 == 0 {
                    Err(described("invalid tag value: 0"@))
                } else {
                    Ok(((k / 8) as u32, wire_type, s.skip(n as int)))
                },
                None => Err(described("invalid wire type value: "@ + decimal(k % 8))),
            }
        },
        None => Err(described("invalid varint"@)),
    }
}

/// Reads a field's key from the front of `buf` with `prost::encoding::decode_key` and returns it
/// with the bytes behind it. What the key is, or which error comes, is what [`read_key`] says.
#[verifier::external_body]
pub(crate) fn take_key(buf: &[u8]) -> (r: Result<(u32, WireType, &[u8]), DecodeError>)
    ensures
        match read_key(buf@) {
            Ok((t, w, behind)) => r matches Ok((tag, wire_type, rest)) && tag == t && wire_type == w
                && rest@ == behind && rest@.len() < buf@.len(),
            Err(error) => r matches Err(e) && e == error,
        },
{
    let mut rest = buf;
    let (tag, wire_type) = prost::encoding::decode_key(&mut rest)?;
    let wire_type = match wire_type {
        prost::encoding::WireType::Varint => WireType::Varint,
        prost::encoding::WireType::SixtyFourBit => WireType::SixtyFourBit,
        prost::encoding::WireType::LengthDelimited => WireType::LengthDelimited,
        prost::encoding::WireType::StartGroup => WireType::StartGroup,
        prost::encoding::WireType::EndGroup => WireType::EndGroup,
        prost::encoding::WireType::ThirtyTwoBit => WireType::ThirtyTwoBit,
    };
    Ok((tag, wire_type, rest))
}

/// What is said of a field whose wire type is not the one that its number calls for.
pub open spec fn wrong_wire_type_text(expected: WireType, actual: WireType) -> Seq<char> {
    "invalid wire type: "@ + actual.spec_name() + " (expected "@ + expected.spec_name() + ")"@
}

/// The error for a field whose wire type is not the one that its number calls for.
fn wrong_wire_type(expected: WireType, actual: WireType) -> (r: DecodeError)
    ensures
        r == described(wrong_wire_type_text(expected, actual)),
{
    let mut text = "invalid wire type: ".to_owned();
    text.append(actual.name());
    text.append(" (expected ");
    text.append(expected.name());
    text.append(")");
    decode_error(text)
}

/// The error for a value that does not fit into the bytes that are left.
fn underflow() -> (r: DecodeError)
    ensures
        r == described("buffer underflow"@),
{
    decode_error("buffer underflow".to_owned())
}

/// The error for a message that goes on behind its end.
pub(crate) fn length_exceeded() -> (r: DecodeError)
    ensures
        r == described("delimited length exceeded"@),
{
    decode_error("delimited length exceeded".to_owned())
}

// ----------------------------------------------------------------------------
// Values of known fields
// ----------------------------------------------------------------------------

/// The value of a number field and the bytes behind it.
pub open spec fn read_number(wire_type: WireType, s: Seq<u8>) -> Result<
    (u64, Seq<u8>),
    DecodeError,
> {
    if wire_type is Varint {
        match read_varint(s) {
            Some((v, n)) => Ok((v as u64, s.skip(n as int))),
            None => Err(described("invalid varint"@)),
        }
    } else {
        Err(described(wrong_wire_type_text(WireType::Varint, wire_type)))
    }
}

/// The length of a field that has one and the bytes behind the length, which are as many at least.
pub open spec fn read_length(wire_type: WireType, s: Seq<u8>) -> Result<
    (nat, Seq<u8>),
    DecodeError,
> {
    if wire_type is LengthDelimited {
        match read_varint(s) {
            Some((len, n)) => if n + len <= s.len() {
                Ok((len, s.skip(n as int)))
            } else {
                Err(described("buffer underflow"@))
            },
            None => Err(described("invalid varint"@)),
        }
    } else {
        Err(described(wrong_wire_type_text(WireType::LengthDelimited, wire_type)))
    }
}

/// The value of a field of bytes and the bytes behind it.
pub open spec fn read_bytes(wire_type: WireType, s: Seq<u8>) -> Result<
    (Seq<u8>, Seq<u8>),
    DecodeError,
> {
    match read_length(wire_type, s) {
        Ok((len, value)) => Ok((value.take(len as int), value.skip(len as int))),
        Err(e) => Err(e),
    }
}

/// Reads the value of a number field and returns it with the bytes behind it.
pub fn take_number(wire_type: WireType, buf: &[u8]) -> (r: Result<(u64, &[u8]), DecodeError>)
    ensures
        match read_number(wire_type, buf@) {
            Ok((v, behind)) => r matches Ok((number, rest)) && number == v && rest@ == behind
                && rest@.len() <= buf@.len(),
            Err(error) => r matches Err(e) && e == error,
        },
{
    proof {
        lemma_read_varint_bound(buf@);
    }
    if wire_type == WireType::Varint {
        take_varint(buf)
    } else {
        Err(wrong_wire_type(WireType::Varint, wire_type))
    }
}

/// Reads the length of a field that has one and returns it with the bytes behind it.
pub fn take_length(wire_type: WireType, buf: &[u8]) -> (r: Result<(usize, &[u8]), DecodeError>)
    ensures
        match read_length(wire_type, buf@) {
            Ok((n, behind)) => r matches Ok((len, rest)) && len == n && rest@ == behind && len
                <= rest@.len() <= buf@.len(),
            Err(error) => r matches Err(e) && e == error,
        },
{
    proof {
        lemma_read_varint_bound(buf@);
    }
    if wire_type != WireType::LengthDelimited {
        return Err(wrong_wire_type(WireType::LengthDelimited, wire_type));
    }
    match take_varint(buf) {
        Ok((len, rest)) => if len > rest.len() as u64 {
            Err(underflow())
        } else {
            Ok((len as usize, rest))
        },
        Err(e) => Err(e),
    }
}

/// Reads the value of a field of bytes and returns it with the bytes behind it.
pub fn take_bytes(wire_type: WireType, buf: &[u8]) -> (r: Result<(Vec<u8>, &[u8]), DecodeError>)
    ensures
        match read_bytes(wire_type, buf@) {
            Ok((v, behind)) => r matches Ok((bytes, rest)) && bytes@ == v && rest@ == behind
                && rest@.len() <= buf@.len(),
            Err(error) => r matches Err(e) && e == error,
        },
{
    match take_length(wire_type, buf) {
        Ok((len, value)) => {
            let bytes = slice_to_vec(slice_subrange(value, 0, len));
            let rest = slice_subrange(value, len, value.len());
            assert(bytes@ =~= value@.take(len as int));
            assert(rest@ =~= value@.skip(len as int));
            Ok((bytes, rest))
        },
        Err(e) => Err(e),
    }
}

// ----------------------------------------------------------------------------
// Values of unknown fields
// ----------------------------------------------------------------------------

/// How many bytes a value takes that is no group.
pub open spec fn value_len(wire_type: WireType, s: Seq<u8>) -> Result<nat, DecodeError> {
    match wire_type {
        WireType::Varint => match read_varint(s) {
            Some((_, n)) => Ok(n),
            None => Err(described("invalid varint"@)),
        },
        WireType::LengthDelimited => match read_length(wire_type, s) {
            Ok((len, value)) => Ok((s.len() - value.len() + len) as nat),
            Err(e) => Err(e),
        },
        WireType::SixtyFourBit => if s.len() >= 8 {
            Ok(8)
        } else {
            Err(described("buffer underflow"@))
        },
        WireType::ThirtyTwoBit => if s.len() >= 4 {
            Ok(4)
        } else {
            Err(described("buffer underflow"@))
        },
        WireType::StartGroup | WireType::EndGroup => Err(
            described("unexpected end group tag"@),
        ),
    }
}

/// How many bytes a group takes, from behind its start key to the end of its end key, or which
/// error comes where it is malformed or nested too deeply.
pub uninterp spec fn group_len(tag: u32, s: Seq<u8>) -> Result<nat, DecodeError>;

/// Passes over the value of a field with `prost::encoding::skip_field` and returns the bytes behind
/// it. What it does with a group is what [`group_len`] names, with other values what [`value_len`]
/// says.
#[verifier::external_body]
fn skip_value(tag: u32, wire_type: WireType, buf: &[u8]) -> (r: Result<&[u8], DecodeError>)
    ensures
        wire_type is StartGroup ==> match group_len(tag, buf@) {
            Ok(n) => r matches Ok(rest) && n <= buf@.len() && rest@ == buf@.skip(n as int),
            Err(error) => r matches Err(e) && e == error,
        },
        !(wire_type is StartGroup) ==> match value_len(wire_type, buf@) {
            Ok(n) => r matches Ok(rest) && n <= buf@.len() && rest@ == buf@.skip(n as int),
            Err(error) => r matches Err(e) && e == error,
        },
{
    let mut rest = buf;
    let wire_type = match wire_type {
        WireType::Varint => prost::encoding::WireType::Varint,
        WireType::SixtyFourBit => prost::encoding::WireType::SixtyFourBit,
        WireType::LengthDelimited => prost::encoding::WireType::LengthDelimited,
        WireType::StartGroup => prost::encoding::WireType::StartGroup,
        WireType::EndGroup => prost::encoding::WireType::EndGroup,
        WireType::ThirtyTwoBit => prost::encoding::WireType::ThirtyTwoBit,
    };
    prost::encoding::skip_field(wire_type, tag, &mut rest, Default::default())?;
    Ok(rest)
}

/// What comes of passing over a length-delimited message field by field.
pub uninterp spec fn skimmed(delimited: Seq<u8>) -> Result<(), DecodeError>;

/// Passes over a length-delimited message with `prost::encoding::message::merge` into the message
/// without fields. What comes of that is what [`skimmed`] names.
#[verifier::external_body]
fn skim(delimited: &[u8]) -> (r: Result<(), DecodeError>)
    ensures
        r == skimmed(delimited@),
{
    let mut rest = delimited;
    let context = prost::encoding::DecodeContext::default();
    let wire_type = prost::encoding::WireType::LengthDelimited;
    prost::encoding::message::merge(wire_type, &mut (), &mut rest, context)
}

/// A message that holds one group and whatever follows, with its length in front.
pub open spec fn group_message(tag: u32, s: Seq<u8>) -> Seq<u8> {
    let message = key(tag as nat, WireType::StartGroup) + s;
    varint(message.len()) + message
}

/// How many bytes a group takes in a message that is itself the value of a field. Groups may be
/// nested one level less deeply there.
pub open spec fn nested_group_len(tag: u32, s: Seq<u8>) -> Result<nat, DecodeError> {
    match group_len(tag, s) {
        Ok(n) => match skimmed(group_message(tag, s.take(n as int))) {
            Ok(()) => Ok(n),
            Err(deeper) => Err(deeper),
        },
        Err(e) => match skimmed(group_message(tag, s)) {
            Ok(()) => Err(e),
            Err(deeper) => Err(deeper),
        },
    }
}

/// The bytes behind a value that is passed over.
pub open spec fn skip(tag: u32, wire_type: WireType, s: Seq<u8>, nested: bool) -> Result<
    Seq<u8>,
    DecodeError,
> {
    let len = if !(wire_type is StartGroup) {
        value_len(wire_type, s)
    } else if nested {
        nested_group_len(tag, s)
    } else {
        group_len(tag, s)
    };
    match len {
        Ok(n) => Ok(s.skip(n as int)),
        Err(e) => Err(e),
    }
}

/// Passes over a message that holds one group and whatever follows.
fn skim_group(tag: u32, group: &[u8]) -> (r: Result<(), DecodeError>)
    requires
        1 <= tag < 0x2000_0000,
    ensures
        r == skimmed(group_message(tag, group@)),
{
    let mut message: Vec<u8> = Vec::new();
    put_varint(&mut message, tag as u64 * 8 + 3);
    message.extend_from_slice(group);
    assert(message@ =~= key(tag as nat, WireType::StartGroup) + group@);
    let mut delimited: Vec<u8> = Vec::new();
    put_varint(&mut delimited, message.len() as u64);
    delimited.extend_from_slice(message.as_slice());
    assert(delimited@ =~= group_message(tag, group@));
    skim(delimited.as_slice())
}

/// Passes over the value of a field that is not known and returns the bytes behind it.
pub fn skip_unknown(tag: u32, wire_type: WireType, buf: &[u8], nested: bool) -> (r: Result<
    &[u8],
    DecodeError,
>)
    requires
        1 <= tag < 0x2000_0000,
    ensures
        match skip(tag, wire_type, buf@, nested) {
            Ok(behind) => r matches Ok(rest) && rest@ == behind && rest@.len() <= buf@.len(),
            Err(error) => r matches Err(e) && e == error,
        },
{
    let skipped = skip_value(tag, wire_type, buf);
    if !nested || wire_type != WireType::StartGroup {
        return skipped;
    }
    match skipped {
        Ok(rest) => {
            let group = slice_subrange(buf, 0, buf.len() - rest.len());
            assert(group@ =~= buf@.take(group@.len() as int));
            match skim_group(tag, group) {
                Ok(()) => Ok(rest),
                Err(deeper) => Err(deeper),
            }
        },
        Err(e) => match skim_group(tag, buf) {
            Ok(()) => Err(e),
            Err(deeper) => Err(deeper),
        },
    }
}

// ----------------------------------------------------------------------------
// Messages made of fields
// ----------------------------------------------------------------------------

/// A message after the fields at the front of `s` were merged into it one after the other, until
/// no more than `limit` bytes are left, and those bytes. The fields must not reach into them.
/// `merge` says what comes of one field, given the bytes behind its key.
#[verifier::opaque]
pub open spec fn merge_fields<M>(
    m: M,
    s: Seq<u8>,
    limit: nat,
    merge: spec_fn(M, u32, WireType, Seq<u8>) -> Result<(M, Seq<u8>), DecodeError>,
) -> Result<(M, Seq<u8>), DecodeError>
    decreases s.len(),
{
    if s.len() == limit {
        Ok((m, s))
    } else if s.len() < limit {
        Err(described("delimited length exceeded"@))
    } else {
        match read_key(s) {
            Ok((tag, wire_type, value)) => match merge(m, tag, wire_type, value) {
                Ok((next, behind)) => if behind.len() < s.len() {
                    merge_fields(next, behind, limit, merge)
                } else {
                    Err(described("buffer underflow"@))
                },
                Err(e) => Err(e),
            },
            Err(e) => Err(e),
        }
    }
}

/// A message after the value of a field, itself a message, was merged into it, and the bytes behind
/// that value.
pub open spec fn read_message<M>(
    m: M,
    wire_type: WireType,
    s: Seq<u8>,
    merge: spec_fn(M, u32, WireType, Seq<u8>) -> Result<(M, Seq<u8>), DecodeError>,
) -> Result<(M, Seq<u8>), DecodeError> {
    match read_length(wire_type, s) {
        Ok((len, value)) => merge_fields(m, value, (value.len() - len) as nat, merge),
        Err(e) => Err(e),
    }
}

// ----------------------------------------------------------------------------
// Writing fields
// ----------------------------------------------------------------------------

/// A number field. Zero is what a missing field means, so it is not written.
pub open spec fn number_field(tag: nat, v: nat) -> Seq<u8> {
    if v == 0 {
        Seq::empty()
    } else {
        key(tag, WireType::Varint) + varint(v)
    }
}

/// A field of bytes that is always written.
pub open spec fn message_field(tag: nat, s: Seq<u8>) -> Seq<u8> {
    key(tag, WireType::LengthDelimited) + varint(s.len()) + s
}

/// A field of bytes. No bytes are what a missing field means, so they are not written.
pub open spec fn bytes_field(tag: nat, s: Seq<u8>) -> Seq<u8> {
    if s.len() == 0 {
        Seq::empty()
    } else {
        message_field(tag, s)
    }
}

/// A field with a small number starts with one byte: its number, times eight, and its wire type,
/// which is zero for numbers and two for what has a length. A number follows as a varint, bytes
/// follow behind their length. What is zero or empty takes no bytes.
pub proof fn lemma_field_bytes(tag: nat, v: nat, s: Seq<u8>)
    requires
        1 <= tag < 16,
    ensures
        number_field(tag, 0) == Seq::<u8>::empty(),
        v != 0 ==> number_field(tag, v) == seq![(tag * 8) as u8] + varint(v),
        bytes_field(tag, Seq::empty()) == Seq::<u8>::empty(),
        s.len() != 0 ==> bytes_field(tag, s) == seq![(tag * 8 + 2) as u8] + varint(s.len()) + s,
        message_field(tag, s) == seq![(tag * 8 + 2) as u8] + varint(s.len()) + s,
        v < 128 ==> varint(v) == seq![v as u8],
{
}

/// A number field takes at most twenty bytes.
pub proof fn lemma_number_field_len(tag: nat, v: nat)
    requires
        tag < 0x2000_0000,
        v <= u64::MAX,
    ensures
        number_field(tag, v).len() <= 20,
{
    lemma_varint_round_trip(tag * 8, Seq::empty());
    lemma_varint_round_trip(v, Seq::empty());
}

/// A field of bytes takes at most twenty bytes more than it holds.
pub proof fn lemma_message_field_len(tag: nat, s: Seq<u8>)
    requires
        tag < 0x2000_0000,
        s.len() <= u64::MAX,
    ensures
        message_field(tag, s).len() <= 20 + s.len(),
{
    lemma_varint_round_trip(tag * 8 + 2, Seq::empty());
    lemma_varint_round_trip(s.len(), Seq::empty());
}

/// Appends a number field.
pub fn put_number_field(buf: &mut Vec<u8>, tag: u32, value: u64)
    requires
        1 <= tag < 0x2000_0000,
    ensures
        final(buf)@ == old(buf)@ + number_field(tag as nat, value as nat),
{
    if value != 0 {
        put_varint(buf, tag as u64 * 8);
        put_varint(buf, value);
    }
    assert(buf@ =~= old(buf)@ + number_field(tag as nat, value as nat));
}

/// Appends a field that holds a message.
pub fn put_message_field(buf: &mut Vec<u8>, tag: u32, value: &Vec<u8>)
    requires
        1 <= tag < 0x2000_0000,
    ensures
        final(buf)@ == old(buf)@ + message_field(tag as nat, value@),
{
    put_varint(buf, tag as u64 * 8 + 2);
    put_varint(buf, value.len() as u64);
    buf.extend_from_slice(value.as_slice());
    assert(buf@ =~= old(buf)@ + message_field(tag as nat, value@));
}

/// Appends a field of bytes.
pub fn put_bytes_field(buf: &mut Vec<u8>, tag: u32, value: &Vec<u8>)
    requires
        1 <= tag < 0x2000_0000,
    ensures
        final(buf)@ == old(buf)@ + bytes_field(tag as nat, value@),
{
    if value.len() > 0 {
        put_message_field(buf, tag, value);
    }
    assert(buf@ =~= old(buf)@ + bytes_field(tag as nat, value@));
}

// ----------------------------------------------------------------------------
// Reading back what was written
// ----------------------------------------------------------------------------

proof fn lemma_key_round_trip(tag: u32, wire_type: WireType, rest: Seq<u8>)
    requires
        1 <= tag < 0x2000_0000,
    ensures
        read_key(key(tag as nat, wire_type) + rest) == Ok::<(u32, WireType, Seq<u8>), DecodeError>(
            (tag, wire_type, rest),
        ),
        key(tag as nat, wire_type).len() >= 1,
{
    let k = key(tag as nat, wire_type);
    lemma_varint_round_trip(tag as nat * 8 + wire_type.spec_code(), rest);
    assert((k + rest).skip(k.len() as int) =~= rest);
}

/// What is read of a field is of the wire type that is due, and leaves the bytes behind it: a
/// number is a varint at the front, and the bytes of a length are all there.
pub proof fn lemma_read_means(wire_type: WireType, s: Seq<u8>)
    ensures
        read_number(wire_type, s) is Ok <==> wire_type is Varint && read_varint(s) is Some,
        read_number(wire_type, s) matches Ok((v, behind)) ==> {
            &&& read_varint(s) matches Some((w, n)) && v == w && behind == s.skip(n as int)
        },
        read_length(wire_type, s) is Ok <==> wire_type is LengthDelimited && (read_varint(
            s,
        ) matches Some((len, n)) && n + len <= s.len()),
        read_bytes(wire_type, s) is Ok <==> read_length(wire_type, s) is Ok,
        read_bytes(wire_type, s) matches Ok((v, behind)) ==> {
            &&& read_varint(s) matches Some((len, n)) && v.len() == len && v + behind == s.skip(
                n as int,
            )
        },
{
    lemma_read_varint_bound(s);
    if let Ok((v, behind)) = read_bytes(wire_type, s) {
        let (len, n) = read_varint(s).unwrap();
        assert(v + behind =~= s.skip(n as int));
    }
}

/// What is left behind a value that is passed over: of a number all behind its varint, of what has
/// a length all behind so many bytes, of fixed numbers all but four or eight bytes. It makes no
/// difference whether the message is nested, but for groups: what is passed over in a nested
/// message is so elsewhere, and leaves the same.
pub proof fn lemma_skip_means(tag: u32, wire_type: WireType, s: Seq<u8>)
    ensures
        !(wire_type is StartGroup) ==> skip(tag, wire_type, s, true) == skip(
            tag,
            wire_type,
            s,
            false,
        ),
        skip(tag, wire_type, s, true) is Ok ==> skip(tag, wire_type, s, true) == skip(
            tag,
            wire_type,
            s,
            false,
        ),
        wire_type is Varint ==> (skip(tag, wire_type, s, false) matches Ok(behind) ==> (read_number(
            wire_type,
            s,
        ) matches Ok((_, rest)) && behind == rest)),
        wire_type is Varint ==> (skip(tag, wire_type, s, false) is Ok <==> read_number(
            wire_type,
            s,
        ) is Ok),
        wire_type is LengthDelimited ==> (skip(tag, wire_type, s, false) matches Ok(behind) ==> (
        read_bytes(wire_type, s) matches Ok((_, rest)) && behind == rest)),
        wire_type is LengthDelimited ==> (skip(tag, wire_type, s, false) is Ok <==> read_bytes(
            wire_type,
            s,
        ) is Ok),
        wire_type is SixtyFourBit && s.len() >= 8 ==> skip(tag, wire_type, s, false) == Ok::<
            Seq<u8>,
            DecodeError,
        >(s.skip(8)),
        wire_type is ThirtyTwoBit && s.len() >= 4 ==> skip(tag, wire_type, s, false) == Ok::<
            Seq<u8>,
            DecodeError,
        >(s.skip(4)),
        wire_type is SixtyFourBit && s.len() < 8 ==> skip(tag, wire_type, s, false) is Err,
        wire_type is ThirtyTwoBit && s.len() < 4 ==> skip(tag, wire_type, s, false) is Err,
        wire_type is EndGroup ==> skip(tag, wire_type, s, false) is Err,
{
    lemma_read_varint_bound(s);
    if wire_type is LengthDelimited {
        if let Some((len, n)) = read_varint(s) {
            if n + len <= s.len() {
                assert(s.skip(n as int).skip(len as int) =~= s.skip((n + len) as int));
            }
        }
    }
}

/// A number that was written is read back, whatever follows it.
pub proof fn lemma_read_number(v: u64, rest: Seq<u8>)
    ensures
        read_number(WireType::Varint, varint(v as nat) + rest) == Ok::<
            (u64, Seq<u8>),
            DecodeError,
        >((v, rest)),
{
    lemma_varint_round_trip(v as nat, rest);
    assert((varint(v as nat) + rest).skip(varint(v as nat).len() as int) =~= rest);
}

/// A length that was written is read back, where as many bytes follow it.
pub proof fn lemma_read_length(len: nat, rest: Seq<u8>)
    requires
        len <= rest.len(),
        len <= u64::MAX,
    ensures
        read_length(WireType::LengthDelimited, varint(len) + rest) == Ok::<
            (nat, Seq<u8>),
            DecodeError,
        >((len, rest)),
{
    lemma_varint_round_trip(len, rest);
    assert((varint(len) + rest).skip(varint(len).len() as int) =~= rest);
}

/// Bytes that were written are read back, whatever follows them.
pub proof fn lemma_read_bytes(v: Seq<u8>, rest: Seq<u8>)
    requires
        v.len() <= u64::MAX,
    ensures
        read_bytes(WireType::LengthDelimited, varint(v.len()) + (v + rest)) == Ok::<
            (Seq<u8>, Seq<u8>),
            DecodeError,
        >((v, rest)),
{
    lemma_read_length(v.len(), v + rest);
    assert((v + rest).take(v.len() as int) =~= v);
    assert((v + rest).skip(v.len() as int) =~= rest);
}

/// Merging the fields of some bytes is merging the first one and then those behind it.
proof fn lemma_merge_first<M>(
    m: M,
    tag: u32,
    wire_type: WireType,
    value: Seq<u8>,
    rest: Seq<u8>,
    limit: nat,
    merge: spec_fn(M, u32, WireType, Seq<u8>) -> Result<(M, Seq<u8>), DecodeError>,
    next: M,
)
    requires
        1 <= tag < 0x2000_0000,
        limit <= rest.len() <= value.len(),
        merge(m, tag, wire_type, value) == Ok::<(M, Seq<u8>), DecodeError>((next, rest)),
    ensures
        merge_fields(m, key(tag as nat, wire_type) + value, limit, merge) == merge_fields(
            next,
            rest,
            limit,
            merge,
        ),
{
    reveal(merge_fields);
    lemma_key_round_trip(tag, wire_type, value);
}

/// Nothing is merged where no more than the limit is left.
pub proof fn lemma_merge_none<M>(
    m: M,
    s: Seq<u8>,
    merge: spec_fn(M, u32, WireType, Seq<u8>) -> Result<(M, Seq<u8>), DecodeError>,
)
    ensures
        merge_fields(m, s, s.len(), merge) == Ok::<(M, Seq<u8>), DecodeError>((m, s)),
{
    reveal(merge_fields);
}

/// Merging a number field, which is left out where the number is zero.
pub proof fn lemma_merge_number<M>(
    m: M,
    tag: u32,
    v: u64,
    rest: Seq<u8>,
    limit: nat,
    merge: spec_fn(M, u32, WireType, Seq<u8>) -> Result<(M, Seq<u8>), DecodeError>,
    next: M,
)
    requires
        1 <= tag < 0x2000_0000,
        limit <= rest.len(),
        v == 0 ==> m == next,
        v != 0 ==> merge(m, tag, WireType::Varint, varint(v as nat) + rest) == Ok::<
            (M, Seq<u8>),
            DecodeError,
        >((next, rest)),
    ensures
        merge_fields(m, number_field(tag as nat, v as nat) + rest, limit, merge) == merge_fields(
            next,
            rest,
            limit,
            merge,
        ),
{
    let s = number_field(tag as nat, v as nat) + rest;
    if v == 0 {
        assert(s =~= rest);
    } else {
        let value = varint(v as nat) + rest;
        assert(s =~= key(tag as nat, WireType::Varint) + value);
        lemma_merge_first(m, tag, WireType::Varint, value, rest, limit, merge, next);
    }
}

/// Merging a field that holds bytes or a message.
pub proof fn lemma_merge_message<M>(
    m: M,
    tag: u32,
    v: Seq<u8>,
    rest: Seq<u8>,
    limit: nat,
    merge: spec_fn(M, u32, WireType, Seq<u8>) -> Result<(M, Seq<u8>), DecodeError>,
    next: M,
)
    requires
        1 <= tag < 0x2000_0000,
        limit <= rest.len(),
        merge(m, tag, WireType::LengthDelimited, varint(v.len()) + (v + rest)) == Ok::<
            (M, Seq<u8>),
            DecodeError,
        >((next, rest)),
    ensures
        merge_fields(m, message_field(tag as nat, v) + rest, limit, merge) == merge_fields(
            next,
            rest,
            limit,
            merge,
        ),
{
    let value = varint(v.len()) + (v + rest);
    assert(message_field(tag as nat, v) + rest =~= key(tag as nat, WireType::LengthDelimited)
        + value);
    lemma_merge_first(m, tag, WireType::LengthDelimited, value, rest, limit, merge, next);
}

/// Merging a field of bytes, which is left out where there are none.
pub proof fn lemma_merge_bytes<M>(
    m: M,
    tag: u32,
    v: Seq<u8>,
    rest: Seq<u8>,
    limit: nat,
    merge: spec_fn(M, u32, WireType, Seq<u8>) -> Result<(M, Seq<u8>), DecodeError>,
    next: M,
)
    requires
        1 <= tag < 0x2000_0000,
        limit <= rest.len(),
        v.len() == 0 ==> m == next,
        v.len() != 0 ==> merge(m, tag, WireType::LengthDelimited, varint(v.len()) + (v + rest))
            == Ok::<(M, Seq<u8>), DecodeError>((next, rest)),
    ensures
        merge_fields(m, bytes_field(tag as nat, v) + rest, limit, merge) == merge_fields(
            next,
            rest,
            limit,
            merge,
        ),
{
    if v.len() == 0 {
        assert(bytes_field(tag as nat, v) + rest =~= rest);
    } else {
        lemma_merge_message(m, tag, v, rest, limit, merge, next);
    }
}

} // verus!
