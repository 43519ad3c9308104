//! What both sides of a connection do before it is established, and how they keep it alive.

use vstd::prelude::*;

use crate::error::{Error, Failure};
use crate::wire::Message;

verus! {

/// Default keepalive interval in seconds.
pub const DEFAULT_KEEPALIVE_INTERVAL: u32 = 5;

/// The keepalive interval that two sides agree on: the smaller one.
pub open spec fn spec_negotiate(ours: u32, theirs: u32) -> u32 {
    if ours <= theirs {
        ours
    } else {
        theirs
    }
}

/// The keepalive interval that two sides agree on.
pub fn negotiate(ours: u32, theirs: u32) -> (r: u32)
    ensures
        r == spec_negotiate(ours, theirs),
{
    if ours <= theirs {
        ours
    } else {
        theirs
    }
}

/// Both sides agree on the same interval, which is one of the two, and neither waits longer than it
/// said.
pub proof fn lemma_negotiate(ours: u32, theirs: u32)
    ensures
        spec_negotiate(ours, theirs) == spec_negotiate(theirs, ours),
        spec_negotiate(ours, theirs) <= ours,
        spec_negotiate(ours, theirs) <= theirs,
        spec_negotiate(ours, theirs) == ours || spec_negotiate(ours, theirs) == theirs,
{
}

/// How long a side may be silent, in nanoseconds: two and a half intervals.
pub open spec fn spec_timeout_nanos(interval: u32) -> int {
    interval * 5 * 1_000_000_000 / 2
}

/// Twice the time that a side may be silent is five intervals of so many seconds.
pub proof fn lemma_timeout(interval: u32)
    ensures
        2 * spec_timeout_nanos(interval) == 5_000_000_000 * interval,
{
}

/// How long a side may be silent, in nanoseconds.
pub fn timeout_nanos(interval: u32) -> (r: u128)
    ensures
        r == spec_timeout_nanos(interval),
{
    interval as u128 * 5 * 1_000_000_000 / 2
}

/// Whether a side has been silent for too long.
pub fn is_timed_out(interval: u32, silent_nanos: u128) -> (r: bool)
    ensures
        r == (silent_nanos > spec_timeout_nanos(interval)),
{
    silent_nanos > timeout_nanos(interval)
}

/// What the bytes of the first message say: nothing, where the connection was closed; a keepalive
/// interval and whether a server sent it.
pub open spec fn spec_read_hello(data: Seq<u8>) -> Result<Option<(u32, bool)>, Failure> {
    if data.len() == 0 {
        Ok(None)
    } else {
        match Message::spec_decode(data) {
            Ok((Message::Hello { keepalive_interval, is_server }, _)) => Ok(
                Some((keepalive_interval, is_server)),
            ),
            Ok(_) => Err(Failure::Protocol("expected HELLO message"@)),
            Err(failure) => Err(failure),
        }
    }
}

/// Reads a HELLO message. No bytes mean that the connection was closed.
pub fn read_hello(data: &[u8]) -> (r: Result<Option<(u32, bool)>, Error>)
    ensures
        match spec_read_hello(data@) {
            Ok(hello) => r == Ok::<Option<(u32, bool)>, Error>(hello),
            Err(failure) => r matches Err(e) && e.reports(failure),
        },
{
    if data.len() == 0 {
        return Ok(None);
    }
    match Message::decode(data) {
        Ok((Message::Hello { keepalive_interval, is_server }, _)) => Ok(
            Some((keepalive_interval, is_server)),
        ),
        Ok(_) => Err(Error::protocol("expected HELLO message")),
        Err(e) => Err(e),
    }
}

/// Reads one message. No bytes mean that the connection was closed.
pub fn read_message(data: &[u8]) -> (r: Result<Message, Error>)
    ensures
        data@.len() == 0 ==> r matches Err(Error::Closed),
        data@.len() > 0 ==> match Message::spec_decode(data@) {
            Ok((message, _)) => r == Ok::<Message, Error>(message),
            Err(failure) => r matches Err(e) && e.reports(failure),
        },
{
    if data.len() == 0 {
        return Err(Error::Closed);
    }
    match Message::decode(data) {
        Ok((message, _)) => Ok(message),
        Err(e) => Err(e),
    }
}

/// Each side understands the HELLO of the other, and a KEEPALIVE is understood: both agree on
/// the same interval.
pub proof fn lemma_handshake_understood(client_interval: u32, server_interval: u32)
    ensures
        spec_read_hello(
            (Message::Hello { keepalive_interval: client_interval, is_server: false }).bytes(),
        ) == Ok::<Option<(u32, bool)>, Failure>(Some((client_interval, false))),
        spec_read_hello(
            (Message::Hello { keepalive_interval: server_interval, is_server: true }).bytes(),
        ) == Ok::<Option<(u32, bool)>, Failure>(Some((server_interval, true))),
        spec_negotiate(client_interval, server_interval) == spec_negotiate(
            server_interval,
            client_interval,
        ),
        Message::spec_decode(Message::Keepalive.bytes()) == Ok::<(Message, nat), Failure>(
            (Message::Keepalive, 4),
        ),
{
    lemma_understood(Message::Hello { keepalive_interval: client_interval, is_server: false });
    lemma_understood(Message::Hello { keepalive_interval: server_interval, is_server: true });
    lemma_understood(Message::Keepalive);
}

/// What is made of the first bytes: a HELLO is read, whatever follows it; any other message is
/// refused with a protocol error, as are bytes that are no message; no bytes say nothing.
pub proof fn lemma_read_hello(message: Message, rest: Seq<u8>, data: Seq<u8>)
    requires
        message.wf(),
    ensures
        spec_read_hello(Seq::empty()) == Ok::<Option<(u32, bool)>, Failure>(None),
        match message {
            Message::Hello { keepalive_interval, is_server } => spec_read_hello(
                message.bytes() + rest,
            ) == Ok::<Option<(u32, bool)>, Failure>(Some((keepalive_interval, is_server))),
            _ => spec_read_hello(message.bytes() + rest) matches Err(Failure::Protocol(_)),
        },
        data.len() > 0 && Message::spec_decode(data) is Err ==> spec_read_hello(data) is Err,
{
    message.lemma_round_trip(rest);
    lemma_understood(message);
}

proof fn lemma_understood(message: Message)
    requires
        message.wf(),
    ensures
        message.bytes().len() > 0,
        Message::spec_decode(message.bytes()) == Ok::<(Message, nat), Failure>(
            (message, message.bytes().len()),
        ),
{
    message.lemma_round_trip(Seq::empty());
    assert(message.bytes() + Seq::<u8>::empty() =~= message.bytes());
}

} // verus!
