//! The three layers of failure: transport errors, connection exceptions (5xx)
//! and channel exceptions (4xx).

use vstd::prelude::*;

verus! {

/// A failure while handling a connection.
#[derive(Debug, Clone, Copy, PartialEq, Eq, Structural)]
pub enum TransError {
    /// The peer broke the protocol.
    Invalid(ProtocolError),
    /// The transport failed or ended early; the connection is torn down without a close method.
    Other,
}

/// A protocol violation, by the scope it closes.
#[derive(Debug, Clone, Copy, PartialEq, Eq, Structural)]
pub enum ProtocolError {
    Fatal,
    ConException(ConException),
    ChannelException(ChannelException),
    OtherCloseConnection,
}

/// A fault that closes the whole connection.
#[derive(Debug, Clone, Copy, PartialEq, Eq, Structural)]
pub enum ConException {
    ConnectionForced,
    InvalidPath,
    FrameError,
    SyntaxError,
    CommandInvalid,
    ChannelError,
    UnexpectedFrame,
    ResourceError,
    NotAllowed,
    NotImplemented,
    InternalError,
}

/// A fault that closes a single channel.
#[derive(Debug, Clone, Copy, PartialEq, Eq, Structural)]
pub enum ChannelException {
    ContentTooLarge,
    NoRoute,
    NoConsumers,
    AccessRefused,
    NotFound,
    ResourceLocked,
    PreconditionFailed,
}

/// The reply code that a connection exception carries in `Connection.Close`.
pub open spec fn con_code(e: ConException) -> u16 {
    match e {
        ConException::ConnectionForced => 320,
        ConException::InvalidPath => 402,
        ConException::FrameError => 501,
        ConException::SyntaxError => 502,
        ConException::CommandInvalid => 503,
        ConException::ChannelError => 504,
        ConException::UnexpectedFrame => 505,
        ConException::ResourceError => 506,
        ConException::NotAllowed => 530,
        ConException::NotImplemented => 540,
        ConException::InternalError => 541,
    }
}

/// The reply code that a channel exception carries in `Channel.Close`.
pub open spec fn channel_code(e: ChannelException) -> u16 {
    match e {
        ChannelException::ContentTooLarge => 311,
        ChannelException::NoRoute => 312,
        ChannelException::NoConsumers => 313,
        ChannelException::AccessRefused => 403,
        ChannelException::NotFound => 404,
        ChannelException::ResourceLocked => 405,
        ChannelException::PreconditionFailed => 406,
    }
}

impl ConException {
    pub fn code(&self) -> (r: u16)
        ensures
            r == con_code(*self),
    {
        match self {
            ConException::ConnectionForced => 320,
            ConException::InvalidPath => 402,
            ConException::FrameError => 501,
            ConException::SyntaxError => 502,
            ConException::CommandInvalid => 503,
            ConException::ChannelError => 504,
            ConException::UnexpectedFrame => 505,
            ConException::ResourceError => 506,
            ConException::NotAllowed => 530,
            ConException::NotImplemented => 540,
            ConException::InternalError => 541,
        }
    }

    /// The exception as the error that ends a connection.
    pub fn into_trans(self) -> (r: TransError)
        ensures
            r == TransError::Invalid(ProtocolError::ConException(self)),
    {
        TransError::Invalid(ProtocolError::ConException(self))
    }
}

impl ChannelException {
    pub fn code(&self) -> (r: u16)
        ensures
            r == channel_code(*self),
    {
        match self {
            ChannelException::ContentTooLarge => 311,
            ChannelException::NoRoute => 312,
            ChannelException::NoConsumers => 313,
            ChannelException::AccessRefused => 403,
            ChannelException::NotFound => 404,
            ChannelException::ResourceLocked => 405,
            ChannelException::PreconditionFailed => 406,
        }
    }
}

/// The error for malformed arguments: `502 SyntaxError`.
pub open spec fn syntax_error() -> TransError {
    TransError::Invalid(ProtocolError::ConException(ConException::SyntaxError))
}

/// The error for a malformed frame: `501 FrameError`.
pub open spec fn frame_error() -> TransError {
    TransError::Invalid(ProtocolError::ConException(ConException::FrameError))
}

} // verus!
