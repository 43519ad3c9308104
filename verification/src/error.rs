//! Errors of MetalBond operations.

use vstd::prelude::*;
use vstd::std_specs::convert::FromSpec;

verus! {

/// The error of a failed input or output operation.
#[verifier::external_type_specification]
#[verifier::external_body]
pub struct ExIoError(std::io::Error);

/// The error that `prost` reports for bytes that are no Protobuf message.
#[verifier::external_type_specification]
#[verifier::external_body]
pub struct ExDecodeError(prost::DecodeError);

/// Errors that can occur in MetalBond operations.
#[derive(Debug)]
pub enum Error {
    /// Connection error.
    Connection(std::io::Error),
    /// Protocol error (invalid message, version mismatch, etc.).
    Protocol(String),
    /// Message encoding/decoding error.
    Encoding(prost::DecodeError),
    /// The connection is not in the established state.
    NotEstablished,
    /// The connection is closed.
    Closed,
    /// Timeout waiting for response.
    Timeout,
    /// Timeout waiting for a connection.
    ConnectionTimeout,
    /// Already subscribed to this VNI.
    AlreadySubscribed(u32),
    /// Not subscribed to this VNI.
    NotSubscribed(u32),
    /// Route already announced.
    RouteAlreadyAnnounced,
    /// Route not found.
    RouteNotFound,
    /// The kernel's routing tables could not be read or changed.
    Netlink(String),
}

/// Why a message cannot be decoded: it breaks a rule of the protocol, or its payload is no
/// Protobuf message.
pub enum Failure {
    Protocol(Seq<char>),
    Encoding(prost::DecodeError),
}

impl Error {
    /// The error reports the given failure.
    pub open spec fn reports(self, failure: Failure) -> bool {
        match failure {
            Failure::Protocol(text) => self matches Error::Protocol(s) && s@ == text,
            Failure::Encoding(error) => self matches Error::Encoding(e) && e == error,
        }
    }

    /// The error is a protocol error with the given text.
    pub open spec fn is_protocol(self, text: Seq<char>) -> bool {
        self.reports(Failure::Protocol(text))
    }

    /// Makes a protocol error.
    pub fn protocol(text: &str) -> (r: Error)
        ensures
            r.is_protocol(text@),
    {
        Error::Protocol(text.to_owned())
    }
}

/// A failed input or output operation is a connection error, and bytes that are no Protobuf message
/// are an encoding error, each with what was wrong.
pub proof fn lemma_from(io: std::io::Error, decode: prost::DecodeError)
    ensures
        <Error as FromSpec<std::io::Error>>::from_spec(io) == Error::Connection(io),
        <Error as FromSpec<prost::DecodeError>>::from_spec(decode) == Error::Encoding(decode),
{
}

/// An error reports one failure only: a protocol error the one with its text, an encoding error the
/// one with what it holds, and any other error none.
pub proof fn lemma_reports(e: Error, one: Failure, other: Failure)
    ensures
        e.reports(one) && e.reports(other) ==> one == other,
        e.reports(one) ==> e is Protocol || e is Encoding,
        e matches Error::Protocol(s) ==> e.reports(Failure::Protocol(s@)) && e.is_protocol(s@),
        e matches Error::Encoding(error) ==> e.reports(Failure::Encoding(error)),
{
}

impl From<std::io::Error> for Error {
    fn from(e: std::io::Error) -> (r: Self) {
        Error::Connection(e)
    }
}

impl vstd::std_specs::convert::FromSpecImpl<std::io::Error> for Error {
    open spec fn obeys_from_spec() -> bool {
        true
    }

    open spec fn from_spec(e: std::io::Error) -> Error {
        Error::Connection(e)
    }
}

impl From<prost::DecodeError> for Error {
    fn from(e: prost::DecodeError) -> (r: Self) {
        Error::Encoding(e)
    }
}

impl vstd::std_specs::convert::FromSpecImpl<prost::DecodeError> for Error {
    open spec fn obeys_from_spec() -> bool {
        true
    }

    open spec fn from_spec(e: prost::DecodeError) -> Error {
        Error::Encoding(e)
    }
}

} // verus!
