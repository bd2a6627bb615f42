//! The exchange that opens a session: the start-up packet, the answer to a
//! request for a password, and the wait until the backend is ready.

use crate::address::{ConnectTarget, ConnectTargetView};
use crate::connection::{
    lemma_next_of, receive_of, valid, ConnectionView, PostgresRawConnection, Received,
    ReceivedView,
};
use crate::driver::Progress;
use crate::error::{Error, ErrorView, ProtocolError};
use crate::frontend::{
    database_key, startup_payload, startup_wire, user_key, PasswordMessage, StartupMessage,
    PROTOCOL_VERSION, TAG_PASSWORD,
};
use crate::message::{
    field_or_empty, find_field, Message, MessageView, FIELD_MESSAGE, FIELD_SEVERITY,
    TAG_COMMAND_COMPLETE, TAG_DATA_ROW,
};
use crate::wire::{be32, cstr, frame, optional_slice, MAX_FRAME_LENGTH};
use vstd::prelude::*;

verus! {

/// The authentication request that says that nothing more is asked.
pub const AUTHENTICATION_OK: u32 = 0;

/// The authentication request that asks for the password in clear text.
pub const AUTHENTICATION_CLEARTEXT: u32 = 3;

/// The progress of the handshake, as contracts see it: nothing while
/// pending.
pub open spec fn handshake_view(p: Progress<Result<(), Error>>) -> Option<Result<(), ErrorView>> {
    match p {
        Progress::Pending => None,
        Progress::Ready(Ok(_)) => Some(Ok(())),
        Progress::Ready(Err(e)) => Some(Err(e@)),
    }
}

/// What one message of the backend means during the handshake: the state of
/// the connection after it, and the result where the message ends the
/// handshake.
///
/// A request for a clear-text password is answered with the password, where
/// there is one that fits a message; any other request but the one that asks
/// nothing fails. The key data is stored. Readiness ends the handshake well,
/// an error report ends it with that error, and a message of a query's answer
/// has no place here.
pub open spec fn greet_of(v: ConnectionView, password: Option<Seq<u8>>, m: MessageView) -> (
    ConnectionView,
    Option<Result<(), ErrorView>>,
) {
    match m {
        MessageView::Authentication { method, .. } => if method == AUTHENTICATION_OK {
            (v, None)
        } else if method == AUTHENTICATION_CLEARTEXT {
            match password {
                Some(p) => if p.len() + 5 <= MAX_FRAME_LENGTH {
                    (
                        ConnectionView {
                            outgoing: v.outgoing + frame(TAG_PASSWORD, cstr(p)),
                            ..v
                        },
                        None,
                    )
                } else {
                    (v, Some(Err(ErrorView::TooLarge)))
                },
                None => (v, Some(Err(ErrorView::PasswordRequired))),
            }
        } else {
            (v, Some(Err(ErrorView::UnsupportedAuthentication { method })))
        },
        MessageView::BackendKeyData { process_id, secret_key } => (
            ConnectionView { process_id, secret_key, ..v },
            None,
        ),
        MessageView::ReadyForQuery { .. } => (v, Some(Ok(()))),
        MessageView::Response { error, fields } => if error {
            (
                v,
                Some(
                    Err(
                        ErrorView::Backend {
                            severity: field_or_empty(fields, FIELD_SEVERITY),
                            message: field_or_empty(fields, FIELD_MESSAGE),
                        },
                    ),
                ),
            )
        } else {
            (v, None)
        },
        MessageView::DataRow { .. } => (
            v,
            Some(
                Err(ErrorView::Protocol(ProtocolError::UnexpectedMessage { tag: TAG_DATA_ROW })),
            ),
        ),
        MessageView::CommandComplete { .. } => (
            v,
            Some(
                Err(
                    ErrorView::Protocol(
                        ProtocolError::UnexpectedMessage { tag: TAG_COMMAND_COMPLETE },
                    ),
                ),
            ),
        ),
        _ => (v, None),
    }
}

/// What polling the handshake does to the connection, and what it returns.
///
/// Messages are received and taken in until one ends the handshake. The
/// poll also ends where the connection has no whole message left, and with
/// an error where the stream has ended or the bytes are no message.
pub open spec fn handshake_of(v: ConnectionView, password: Option<Seq<u8>>) -> (
    ConnectionView,
    Option<Result<(), ErrorView>>,
)
    decreases v.incoming.len(),
{
    let (after, got) = receive_of(v);
    match got {
        ReceivedView::Pending => (after, None),
        ReceivedView::Closed => (after, Some(Err(ErrorView::Closed))),
        ReceivedView::Failed(e) => (after, Some(Err(ErrorView::Protocol(e)))),
        ReceivedView::Message(m) => {
            let (next, end) = greet_of(after, password, m);
            match end {
                Some(r) => (next, Some(r)),
                None => {
                    proof {
                        lemma_next_of(v.incoming);
                    }
                    handshake_of(next, password)
                },
            }
        },
    }
}

/// The state of a connection on which only the start-up packet is queued.
pub open spec fn opened(target: ConnectTargetView) -> ConnectionView {
    ConnectionView {
        outgoing: startup_wire(target.user, target.database),
        incoming: Seq::<u8>::empty(),
        readable: false,
        eof: false,
        process_id: 0,
        secret_key: 0,
    }
}

impl PostgresRawConnection {
    /// Opens a connection: the start-up packet for the target's user and
    /// database is queued, and nothing else has happened yet.
    ///
    /// The only failure is `TooLarge`, where the names do not fit a packet.
    pub fn establish(target: &ConnectTarget) -> (r: Result<Self, Error>)
        ensures
            r is Ok <==> startup_payload(target@.user, target@.database).len() + 4 <= MAX_FRAME_LENGTH,
            r matches Ok(conn) ==> valid(conn@) && conn@ == opened(target@),
            r matches Err(e) ==> e@ == ErrorView::TooLarge,
    {
        let user = target.user.as_slice();
        let database = match &target.database {
            Some(d) => Some(d.as_slice()),
            None => None,
        };
        let named: usize = match database {
            Some(d) => d.len(),
            None => 0,
        };
        let fixed: usize = if database.is_some() {
            25
        } else {
            15
        };
        proof {
            let payload = startup_payload(target@.user, target@.database);
            assert(be32(PROTOCOL_VERSION).len() == 4);
            assert(cstr(user_key()).len() == 5);
            assert(cstr(database_key()).len() == 9);
            assert(payload.len() + 4 == user@.len() + named + fixed);
        }
        if user.len() > 0x7fff_ffff - fixed || named > 0x7fff_ffff - fixed - user.len() {
            return Err(Error::TooLarge);
        }
        let message = StartupMessage { user, database };
        let mut conn = PostgresRawConnection::new();
        conn.write(&message);
        assert(conn@.outgoing =~= startup_wire(target@.user, target@.database));
        Ok(conn)
    }

    /// Takes in one message of the handshake.
    fn greet(&mut self, password: Option<&[u8]>, message: Message) -> (end: Option<
        Result<(), Error>,
    >)
        ensures
            final(self)@ == greet_of(old(self)@, optional_slice(password), message@).0,
            match greet_of(old(self)@, optional_slice(password), message@).1 {
                None => end is None,
                Some(Ok(_)) => end matches Some(Ok(_)),
                Some(Err(e)) => end matches Some(Err(x)) && x@ == e,
            },
    {
        match message {
            Message::Authentication { method, .. } => {
                if method == AUTHENTICATION_OK {
                    None
                } else if method == AUTHENTICATION_CLEARTEXT {
                    match password {
                        Some(p) => {
                            if p.len() > 0x7fff_ffff - 5 {
                                Some(Err(Error::TooLarge))
                            } else {
                                self.write(&PasswordMessage { password: p });
                                None
                            }
                        },
                        None => Some(Err(Error::PasswordRequired)),
                    }
                } else {
                    Some(Err(Error::UnsupportedAuthentication { method }))
                }
            },
            Message::BackendKeyData { process_id, secret_key } => {
                self.set_key_data(process_id, secret_key);
                None
            },
            Message::ReadyForQuery { .. } => Some(Ok(())),
            Message::Response { error, fields } => {
                if error {
                    Some(
                        Err(
                            Error::Backend {
                                severity: find_field(&fields, FIELD_SEVERITY),
                                message: find_field(&fields, FIELD_MESSAGE),
                            },
                        ),
                    )
                } else {
                    None
                }
            },
            Message::DataRow { .. } => Some(
                Err(Error::Protocol(ProtocolError::UnexpectedMessage { tag: TAG_DATA_ROW })),
            ),
            Message::CommandComplete { .. } => Some(
                Err(
                    Error::Protocol(ProtocolError::UnexpectedMessage { tag: TAG_COMMAND_COMPLETE }),
                ),
            ),
            _ => None,
        }
    }

    /// Reads the backend's part of the handshake as far as it has come.
    ///
    /// On `Pending` the caller sends what is queued, if anything is, reads
    /// the socket, feeds the connection and polls again. `Ready(Ok(()))`
    /// says that the session is open and a query can be sent.
    pub fn poll_establish(&mut self, password: Option<&[u8]>) -> (r: Progress<Result<(), Error>>)
        requires
            valid(old(self)@),
        ensures
            valid(final(self)@),
            (final(self)@, handshake_view(r)) == handshake_of(
                old(self)@,
                optional_slice(password),
            ),
    {
        loop
            invariant
                valid(self@),
                handshake_of(self@, optional_slice(password)) == handshake_of(
                    old(self)@,
                    optional_slice(password),
                ),
            decreases self@.incoming.len(),
        {
            proof {
                lemma_next_of(self@.incoming);
            }
            match self.receive() {
                Err(e) => {
                    return Progress::Ready(Err(e));
                },
                Ok(Received::Pending) => {
                    return Progress::Pending;
                },
                Ok(Received::Closed) => {
                    return Progress::Ready(Err(Error::Closed));
                },
                Ok(Received::Message(message)) => {
                    match self.greet(password, message) {
                        Some(r) => {
                            return Progress::Ready(r);
                        },
                        None => {},
                    }
                },
            }
        }
    }
}

} // verus!
