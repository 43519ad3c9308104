//! Messages in a stream of bytes.
//!
//! A connection hands over bytes in pieces that need not end where a message ends. What was
//! received and not yet decoded is kept until more bytes come.

use vstd::prelude::*;
use vstd::slice::slice_subrange;

use crate::error::{Error, Failure};
use crate::wire::{HEADER_SIZE, Message, MessageType, PROTOCOL_VERSION};

verus! {

/// No message can be decoded yet: the header is not complete, or it is fine and the payload is
/// not complete.
pub open spec fn awaits_more(s: Seq<u8>) -> bool {
    ||| s.len() < HEADER_SIZE
    ||| (s[0] == PROTOCOL_VERSION && MessageType::spec_from_code(s[3]) is Some && s.len()
        < Message::total_len(s))
}

/// What is read from some bytes.
#[verifier::ext_equal]
pub struct Reading {
    /// The messages.
    pub messages: Seq<Message>,
    /// The bytes behind them.
    pub rest: Seq<u8>,
    /// What is wrong with those bytes, if they will never make a message.
    pub failure: Option<Failure>,
}

/// The messages at the front of some bytes.
pub open spec fn read_messages(s: Seq<u8>) -> Reading
    decreases s.len(),
{
    if awaits_more(s) {
        Reading { messages: Seq::empty(), rest: s, failure: None }
    } else {
        match Message::spec_decode(s) {
            Err(failure) => Reading { messages: Seq::empty(), rest: s, failure: Some(failure) },
            Ok((message, len)) => {
                let after = read_messages(s.skip(len as int));
                Reading { messages: seq![message] + after.messages, ..after }
            },
        }
    }
}

/// The bytes of some messages, one after the other.
pub open spec fn messages_bytes(messages: Seq<Message>) -> Seq<u8>
    decreases messages.len(),
{
    if messages.len() == 0 {
        Seq::empty()
    } else {
        messages.first().bytes() + messages_bytes(messages.skip(1))
    }
}

/// Whether more bytes are needed before a message can be decoded.
pub fn needs_more(buf: &[u8]) -> (r: bool)
    ensures
        r == awaits_more(buf@),
{
    if buf.len() < HEADER_SIZE {
        return true;
    }
    if buf[0] != PROTOCOL_VERSION {
        return false;
    }
    match MessageType::try_from(buf[3]) {
        Ok(_) => buf.len() < HEADER_SIZE + buf[1] as usize * 256 + buf[2] as usize,
        Err(_) => false,
    }
}

/// Takes in bytes that were received: decodes every message that is complete and keeps the
/// bytes behind them. The error is that of the first bytes that are no message.
pub fn receive(msg_buf: &mut Vec<u8>, data: &[u8]) -> (r: (Vec<Message>, Option<Error>))
    ensures
        ({
            let reading = read_messages(old(msg_buf)@ + data@);
            &&& r.0@ == reading.messages
            &&& final(msg_buf)@ == reading.rest
            &&& match reading.failure {
                Some(failure) => r.1 matches Some(e) && e.reports(failure),
                None => r.1 is None,
            }
        }),
{
    msg_buf.extend_from_slice(data);
    let ghost all = msg_buf@;
    assert(all =~= old(msg_buf)@ + data@);
    let mut messages: Vec<Message> = Vec::new();
    let mut start: usize = 0;
    let mut error: Option<Error> = None;
    assert(all.skip(0) =~= all);
    loop
        invariant_except_break
            error is None,
        invariant
            msg_buf@ == all,
            start <= msg_buf.len(),
            read_messages(all).messages == messages@ + read_messages(
                all.skip(start as int),
            ).messages,
            read_messages(all).rest == read_messages(all.skip(start as int)).rest,
            read_messages(all).failure == read_messages(all.skip(start as int)).failure,
        ensures
            read_messages(all.skip(start as int)).messages.len() == 0,
            read_messages(all.skip(start as int)).rest == all.skip(start as int),
            match read_messages(all).failure {
                Some(failure) => error matches Some(e) && e.reports(failure),
                None => error is None,
            },
        decreases msg_buf.len() - start,
    {
        let pending = slice_subrange(msg_buf.as_slice(), start, msg_buf.len());
        assert(pending@ =~= all.skip(start as int));
        if needs_more(pending) {
            break;
        }
        match Message::decode(pending) {
            Ok((message, consumed)) => {
                assert(all.skip(start as int).skip(consumed as int) =~= all.skip(
                    start + consumed,
                ));
                messages.push(message);
                start = start + consumed;
                assert(read_messages(all).messages =~= messages@ + read_messages(
                    all.skip(start as int),
                ).messages);
            },
            Err(e) => {
                error = Some(e);
                break;
            },
        }
    }
    let rest = vstd::slice::slice_to_vec(slice_subrange(msg_buf.as_slice(), start, msg_buf.len()));
    assert(rest@ =~= all.skip(start as int));
    assert(messages@ =~= read_messages(all).messages);
    *msg_buf = rest;
    (messages, error)
}

/// Encodes messages into one buffer.
pub fn encode_all(messages: &Vec<Message>) -> (r: Vec<u8>)
    ensures
        r@ == messages_bytes(messages@),
{
    let mut data: Vec<u8> = Vec::new();
    assert(messages@.skip(0) =~= messages@);
    for i in 0..messages.len()
        invariant
            messages_bytes(messages@) == data@ + messages_bytes(messages@.skip(i as int)),
    {
        assert(messages@.skip(i as int).first() == messages[i as int]);
        assert(messages@.skip(i as int).skip(1) =~= messages@.skip(i + 1));
        if let Ok(encoded) = messages[i].encode() {
            data.extend_from_slice(encoded.as_slice());
        }
        assert(messages_bytes(messages@) =~= data@ + messages_bytes(messages@.skip(i + 1)));
    }
    assert(data@ + messages_bytes(messages@.skip(messages@.len() as int)) =~= data@);
    data
}

/// Messages that were encoded one after the other are all decoded, and what follows them is
/// read as if they were not there.
pub proof fn lemma_read_encoded(messages: Seq<Message>, rest: Seq<u8>)
    requires
        forall|i: int| 0 <= i < messages.len() ==> (#[trigger] messages[i]).wf(),
    ensures
        read_messages(messages_bytes(messages) + rest) == (Reading {
            messages: messages + read_messages(rest).messages,
            ..read_messages(rest)
        }),
    decreases messages.len(),
{
    if messages.len() == 0 {
        assert(messages_bytes(messages) + rest =~= rest);
        assert(messages + read_messages(rest).messages =~= read_messages(rest).messages);
    } else {
        let first = messages.first();
        let others = messages.skip(1);
        let tail = messages_bytes(others) + rest;
        let s = messages_bytes(messages) + rest;
        assert(s =~= first.bytes() + tail);
        first.lemma_round_trip(tail);
        first.lemma_payload_len();
        assert(s.skip(first.bytes().len() as int) =~= tail);
        assert forall|i: int| 0 <= i < others.len() implies (#[trigger] others[i]).wf() by {
            assert(others[i] == messages[i + 1]);
        }
        lemma_read_encoded(others, rest);
        assert(!awaits_more(s)) by {
            assert(Message::spec_decode(s) is Ok);
        }
        assert(seq![first] + (others + read_messages(rest).messages) =~= messages + read_messages(
            rest,
        ).messages);
    }
}

/// It makes no difference in which pieces bytes arrive: reading some bytes and then the kept
/// ones with more behind them gives what reading all of them at once gives. Bytes that are no
/// message stay so whatever follows.
pub proof fn lemma_read_pieces(s: Seq<u8>, t: Seq<u8>)
    ensures
        read_messages(s).failure is None ==> read_messages(s + t) == (Reading {
            messages: read_messages(s).messages + read_messages(
                read_messages(s).rest + t,
            ).messages,
            ..read_messages(read_messages(s).rest + t)
        }),
        read_messages(s).failure is Some ==> read_messages(s + t) == (Reading {
            rest: read_messages(s).rest + t,
            ..read_messages(s)
        }),
    decreases s.len(),
{
    if awaits_more(s) {
        let after = read_messages(s + t);
        assert(read_messages(s).messages + after.messages =~= after.messages);
    } else {
        Message::lemma_decode_prefix(s, t);
        assert((s + t)[0] == s[0] && (s + t)[1] == s[1] && (s + t)[2] == s[2] && (s + t)[3]
            == s[3]);
        match Message::spec_decode(s) {
            Err(failure) => {},
            Ok((message, len)) => {
                let after = s.skip(len as int);
                assert((s + t).skip(len as int) =~= after + t);
                lemma_read_pieces(after, t);
                if read_messages(after).failure is None {
                    let more = read_messages(read_messages(after).rest + t).messages;
                    assert(seq![message] + (read_messages(after).messages + more) =~= (
                    seq![message] + read_messages(after).messages) + more);
                }
            },
        }
    }
}

/// A message that has not arrived as a whole is waited for: nothing is read, and its bytes are
/// kept.
pub proof fn lemma_read_incomplete(message: Message, n: int)
    requires
        0 <= n < message.bytes().len(),
    ensures
        read_messages(message.bytes().take(n)) == (Reading {
            messages: Seq::empty(),
            rest: message.bytes().take(n),
            failure: None,
        }),
{
    message.lemma_header();
    let s = message.bytes().take(n);
    if n >= 4 {
        assert(s[0] == message.bytes()[0] && s[1] == message.bytes()[1] && s[2]
            == message.bytes()[2] && s[3] == message.bytes()[3]);
    }
}

/// Bytes are wrong only if they start, behind the messages that were read, with a complete header
/// and cannot be decoded; then it is said why. What is kept are the last of the bytes.
pub proof fn lemma_read_failure(s: Seq<u8>)
    ensures
        read_messages(s).failure matches Some(failure) ==> {
            &&& read_messages(s).rest.len() >= 4
            &&& Message::spec_decode(read_messages(s).rest) == Err::<(Message, nat), Failure>(
                failure,
            )
        },
        read_messages(s).rest.len() <= s.len(),
        read_messages(s).rest == s.skip(s.len() - read_messages(s).rest.len()),
        s.len() >= 4 && s[0] != 1 ==> read_messages(s).failure is Some && read_messages(
            s,
        ).messages.len() == 0,
        s.len() >= 4 && (s[3] == 0 || s[3] > 5) ==> read_messages(s).failure is Some
            && read_messages(s).messages.len() == 0,
    decreases s.len(),
{
    Message::lemma_decode_means(s);
    if !awaits_more(s) {
        match Message::spec_decode(s) {
            Ok((message, len)) => {
                let after = s.skip(len as int);
                lemma_read_failure(after);
                let kept = read_messages(after).rest;
                assert(after.skip(after.len() - kept.len()) =~= s.skip(s.len() - kept.len()));
            },
            Err(_) => {
                assert(s.skip(0) =~= s);
            },
        }
    } else {
        assert(s.skip(0) =~= s);
    }
}

/// The bytes of messages are those of the first ones followed by those of the others, and the bytes
/// of one message are its own.
pub proof fn lemma_messages_bytes(messages: Seq<Message>, more: Seq<Message>, message: Message)
    ensures
        messages_bytes(messages + more) == messages_bytes(messages) + messages_bytes(more),
        messages_bytes(seq![message]) == message.bytes(),
        messages_bytes(Seq::empty()) == Seq::<u8>::empty(),
    decreases messages.len(),
{
    let one = seq![message];
    assert(one.skip(1) =~= Seq::<Message>::empty());
    assert(messages_bytes(one.skip(1)) =~= Seq::<u8>::empty());
    assert(messages_bytes(one) =~= message.bytes());
    if messages.len() == 0 {
        assert(messages + more =~= more);
        assert(messages_bytes(messages) + messages_bytes(more) =~= messages_bytes(more));
    } else {
        lemma_messages_bytes(messages.skip(1), more, message);
        assert((messages + more).first() == messages.first());
        assert((messages + more).skip(1) =~= messages.skip(1) + more);
        assert(messages_bytes(messages + more) =~= messages_bytes(messages) + messages_bytes(
            more,
        ));
    }
}

} // verus!
