//! What can go wrong on a connection, short of the socket itself failing.

use vstd::prelude::*;

verus! {

/// A byte stream that does not follow the protocol. None of these can be
/// recovered from: the stream has lost its message boundaries.
#[derive(Clone, Copy, Debug, PartialEq, Eq, Structural)]
pub enum ProtocolError {
    /// A length field below the four bytes that it counts itself.
    LengthTooShort { tag: u8, length: u32 },
    /// A length field above what this crate buffers.
    LengthTooLong { tag: u8, length: u32 },
    /// A message whose payload does not have the layout of its tag.
    MalformedBody { tag: u8 },
    /// A message that has no place in the exchange under way.
    UnexpectedMessage { tag: u8 },
}

/// A failure of an operation on a connection.
#[derive(Clone, Debug, PartialEq, Eq)]
pub enum Error {
    /// The address is no URL.
    Address,
    /// The peer closed the stream before the exchange was over.
    Closed,
    /// The byte stream does not follow the protocol.
    Protocol(ProtocolError),
    /// The backend reported an error, with this severity and text.
    Backend { severity: Vec<u8>, message: Vec<u8> },
    /// The backend asks for an authentication method other than a clear-text
    /// password.
    UnsupportedAuthentication { method: u32 },
    /// The backend asks for a password and the address names none.
    PasswordRequired,
    /// A query, its parameters or a start-up packet too large for one message.
    TooLarge,
    /// More than the read buffer can hold was handed over.
    Overflow,
    /// The operation was asked to go on after it had given its result.
    Finished,
}

/// An error, as contracts see it.
pub enum ErrorView {
    Address,
    Closed,
    Protocol(ProtocolError),
    Backend { severity: Seq<u8>, message: Seq<u8> },
    UnsupportedAuthentication { method: u32 },
    PasswordRequired,
    TooLarge,
    Overflow,
    Finished,
}

impl View for Error {
    type V = ErrorView;

    open spec fn view(&self) -> ErrorView {
        match *self {
            Error::Address => ErrorView::Address,
            Error::Closed => ErrorView::Closed,
            Error::Protocol(e) => ErrorView::Protocol(e),
            Error::Backend { severity, message } => ErrorView::Backend {
                severity: severity@,
                message: message@,
            },
            Error::UnsupportedAuthentication { method } => ErrorView::UnsupportedAuthentication {
                method,
            },
            Error::PasswordRequired => ErrorView::PasswordRequired,
            Error::TooLarge => ErrorView::TooLarge,
            Error::Overflow => ErrorView::Overflow,
            Error::Finished => ErrorView::Finished,
        }
    }
}

} // verus!
