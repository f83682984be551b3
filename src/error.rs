//! The library's error type.

use vstd::prelude::*;

verus! {

/// `std::io::Error`, carried through as an opaque value.
#[verifier::external_type_specification]
#[verifier::external_body]
pub struct ExIoError(std::io::Error);

/// `bincode::ErrorKind`, carried through as an opaque value (boxed, as
/// `bincode::Error`).
#[verifier::external_type_specification]
#[verifier::external_body]
pub struct ExBincodeErrorKind(bincode::ErrorKind);

/// Everything that can go wrong in a node.
#[derive(Debug)]
pub enum TapDemoError {
    /// A socket or interface read or write failed.
    IOError(std::io::Error),
    /// Creating the local interface failed with this code.
    TapCreateError(i32),
    /// A peer did not tell its hardware address.
    GetHWAddrError,
    /// A peer description is not of the form `name=address`.
    PeerParseError,
    /// An IP address could not be read.
    PeerAddressParseError(String),
    /// Configuring the local interface failed.
    TapSetupError,
    /// A peer did not answer a liveness probe.
    PeerLost,
    /// A control message could not be decoded.
    MsgDeserializeError(bincode::Error),
}

impl From<std::io::Error> for TapDemoError {
    fn from(err: std::io::Error) -> (r: TapDemoError)
        ensures
            r == TapDemoError::IOError(err),
    {
        TapDemoError::IOError(err)
    }
}

impl vstd::std_specs::convert::FromSpecImpl<std::io::Error> for TapDemoError {
    open spec fn obeys_from_spec() -> bool {
        true
    }

    open spec fn from_spec(v: std::io::Error) -> TapDemoError {
        TapDemoError::IOError(v)
    }
}

impl From<bincode::Error> for TapDemoError {
    fn from(err: bincode::Error) -> (r: TapDemoError)
        ensures
            r == TapDemoError::MsgDeserializeError(err),
    {
        TapDemoError::MsgDeserializeError(err)
    }
}

impl vstd::std_specs::convert::FromSpecImpl<bincode::Error> for TapDemoError {
    open spec fn obeys_from_spec() -> bool {
        true
    }

    open spec fn from_spec(v: bincode::Error) -> TapDemoError {
        TapDemoError::MsgDeserializeError(v)
    }
}

/// The result of an operation of a node.
pub type AppResult<T> = Result<T, TapDemoError>;

} // verus!
