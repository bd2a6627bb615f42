//! The state of one connection: the bytes waiting to be sent, the bytes that
//! came and are not decoded yet, and the identifiers of the session.
//!
//! Nothing here touches a socket. The owner of the socket sends what
//! [`PostgresRawConnection::unsent`] shows and tells
//! [`PostgresRawConnection::flush`] how that went, passes what it read to
//! [`PostgresRawConnection::feed`], and reads again whenever
//! [`PostgresRawConnection::receive`] says that it needs more.

use crate::buffer::{buffer_extend, buffer_len, buffer_with_capacity, held, MAX_HELD};
use crate::codec::{
    decode, decode_of, lemma_decode_encoded, lemma_decode_followed, lemma_decode_partial,
    lemma_frame_parts, Decoded,
};
use crate::error::{Error, ProtocolError};
use crate::frontend::{Encode, Terminate, TAG_TERMINATE};
use crate::message::{body_of, tag_of, well_formed, wire_of, Message, MessageView};
use crate::wire::frame;
use bytes::BytesMut;
use vstd::prelude::*;

verus! {

/// One connection to a backend, without its socket.
pub struct PostgresRawConnection {
    stream_readable: bool,
    stream_eof: bool,
    wbuf: Vec<u8>,
    rbuf: BytesMut,
    process_id: u32,
    secret_key: u32,
}

/// A connection, as contracts see it.
pub struct ConnectionView {
    /// The bytes that were written and not flushed yet.
    pub outgoing: Seq<u8>,
    /// The bytes that came and were not decoded yet.
    pub incoming: Seq<u8>,
    /// Whether `incoming` may start with a whole message.
    pub readable: bool,
    /// Whether the peer has closed the stream.
    pub eof: bool,
    /// The process of the backend that serves this session.
    pub process_id: u32,
    /// The key that authorises cancelling a query of this session.
    pub secret_key: u32,
}

/// What the connection has for its caller.
#[derive(Debug, PartialEq, Eq)]
pub enum Received {
    /// The next message.
    Message(Message),
    /// Nothing, ever again: the peer has closed the stream.
    Closed,
    /// Nothing yet: the socket must be read and the bytes fed in.
    Pending,
}

/// `Received`, as contracts see it, together with a failure to decode.
pub enum ReceivedView {
    Message(MessageView),
    Closed,
    Pending,
    Failed(ProtocolError),
}

/// Whether a message is taken in by the connection itself and never shown to
/// its caller: reports of session parameters and notices are.
pub open spec fn absorbed(m: MessageView) -> bool {
    match m {
        MessageView::ParameterStatus { .. } => true,
        MessageView::Response { error, .. } => !error,
        _ => false,
    }
}

/// What the bytes that came hold for the caller.
pub enum Next {
    /// A message to show, and the bytes behind it.
    Message { message: MessageView, rest: Seq<u8> },
    /// No message to show; `rest` is the part of a message that is there.
    Pending { rest: Seq<u8> },
    /// Bytes that cannot be a message, at the front of `rest`.
    Invalid { error: ProtocolError, rest: Seq<u8> },
}

/// Decodes from the front of `b`, passing over what the connection absorbs,
/// up to the first message to show, the first bytes that are invalid, or the
/// end of the whole messages.
pub open spec fn next_of(b: Seq<u8>) -> Next
    decreases b.len(),
{
    match decode_of(b) {
        Decoded::Incomplete => Next::Pending { rest: b },
        Decoded::Invalid { error } => Next::Invalid { error, rest: b },
        Decoded::Complete { message, used } => {
            let rest = b.subrange(used, b.len() as int);
            if absorbed(message) {
                next_of(rest)
            } else {
                Next::Message { message, rest }
            }
        },
    }
}

/// The bytes that `next_of` leaves.
pub open spec fn rest_of(n: Next) -> Seq<u8> {
    match n {
        Next::Message { rest, .. } => rest,
        Next::Pending { rest } => rest,
        Next::Invalid { rest, .. } => rest,
    }
}

/// A state that a connection can be in: the read buffer is within its limit,
/// and the mark that it holds no whole message is only set where it holds
/// none.
pub open spec fn valid(v: ConnectionView) -> bool {
    &&& v.incoming.len() <= MAX_HELD
    &&& !v.readable ==> decode_of(v.incoming) is Incomplete
}

/// The state after `receive` and what it returns.
pub open spec fn receive_of(v: ConnectionView) -> (ConnectionView, ReceivedView) {
    if v.eof {
        (v, ReceivedView::Closed)
    } else {
        match next_of(v.incoming) {
            Next::Message { message, rest } => (
                ConnectionView { incoming: rest, readable: true, ..v },
                ReceivedView::Message(message),
            ),
            Next::Pending { rest } => (
                ConnectionView { incoming: rest, readable: false, ..v },
                ReceivedView::Pending,
            ),
            Next::Invalid { error, rest } => (
                ConnectionView { incoming: rest, readable: true, ..v },
                ReceivedView::Failed(error),
            ),
        }
    }
}

/// The state after `data` was fed in: nothing changes once the stream has
/// ended or where the buffer would overflow; no data ends the stream; other
/// data follows what is there.
pub open spec fn feed_of(v: ConnectionView, data: Seq<u8>) -> ConnectionView {
    if v.eof {
        v
    } else if data.len() == 0 {
        ConnectionView { eof: true, ..v }
    } else if v.incoming.len() + data.len() > MAX_HELD {
        v
    } else {
        ConnectionView { incoming: v.incoming + data, readable: true, ..v }
    }
}

/// What `next_of` leaves is the end of what it was given, and is shorter
/// where a message was found; where nothing is pending any more, what is left
/// starts with less than a message.
pub proof fn lemma_next_of(b: Seq<u8>)
    ensures
        rest_of(next_of(b)).len() <= b.len(),
        rest_of(next_of(b)) == b.subrange(b.len() - rest_of(next_of(b)).len(), b.len() as int),
        next_of(b) is Message ==> rest_of(next_of(b)).len() < b.len(),
        next_of(b) is Pending ==> decode_of(rest_of(next_of(b))) is Incomplete,
    decreases b.len(),
{
    match decode_of(b) {
        Decoded::Complete { message, used } => {
            let rest = b.subrange(used, b.len() as int);
            if absorbed(message) {
                lemma_next_of(rest);
                let left = rest_of(next_of(rest));
                assert(left =~= b.subrange(b.len() - left.len(), b.len() as int));
            }
        },
        _ => {
            assert(b =~= b.subrange(0, b.len() as int));
        },
    }
}

/// The connection with more bytes behind those that it holds.
pub open spec fn grown(v: ConnectionView, more: Seq<u8>) -> ConnectionView {
    ConnectionView { incoming: v.incoming + more, ..v }
}

/// A message that `next_of` finds, or bytes that it finds to be no message,
/// it finds as well with more bytes behind them, and the bytes that it leaves
/// are then followed by those.
pub proof fn lemma_next_followed(b: Seq<u8>, more: Seq<u8>)
    ensures
        match next_of(b) {
            Next::Message { message, rest } => next_of(b + more) == (Next::Message {
                message,
                rest: rest + more,
            }),
            Next::Invalid { error, rest } => next_of(b + more) == (Next::Invalid {
                error,
                rest: rest + more,
            }),
            Next::Pending { .. } => true,
        },
    decreases b.len(),
{
    lemma_decode_followed(b, more);
    match decode_of(b) {
        Decoded::Complete { message, used } => {
            if absorbed(message) {
                lemma_next_followed(b.subrange(used, b.len() as int), more);
            }
        },
        _ => {},
    }
}

/// What `receive` gives, unless it is `Pending`, it gives as well with more
/// bytes behind those that the connection holds, and those bytes stay behind
/// what it leaves.
pub proof fn lemma_receive_followed(v: ConnectionView, more: Seq<u8>)
    ensures
        !(receive_of(v).1 is Pending) ==> receive_of(grown(v, more)) == (
            grown(receive_of(v).0, more),
            receive_of(v).1,
        ),
{
    lemma_next_followed(v.incoming, more);
}

/// Once a read has returned no bytes the stream stays ended: `receive` gives
/// `Closed` and leaves the connection as it is, so that it gives `Closed`
/// again, and never asks for the socket to be read; bytes fed in later are
/// not taken.
pub proof fn lemma_closed_forever(v: ConnectionView, data: Seq<u8>)
    requires
        !v.eof,
    ensures
        feed_of(v, Seq::<u8>::empty()).eof,
        receive_of(feed_of(v, Seq::<u8>::empty())) == (
            feed_of(v, Seq::<u8>::empty()),
            ReceivedView::Closed,
        ),
        feed_of(feed_of(v, Seq::<u8>::empty()), data) == feed_of(v, Seq::<u8>::empty()),
{
}

/// A message may come in any number of pieces: as long as a piece of it is
/// missing the connection asks for more and keeps what came, and with the
/// last piece the message is received.
pub proof fn lemma_receive_in_pieces(v: ConnectionView, m: MessageView, k: int)
    requires
        well_formed(m),
        !absorbed(m),
        !v.eof,
        v.incoming.len() == 0,
        0 < k < wire_of(m).len(),
    ensures
        ({
            let whole = wire_of(m);
            let first = feed_of(v, whole.subrange(0, k));
            let waiting = receive_of(first);
            let second = feed_of(waiting.0, whole.subrange(k, whole.len() as int));
            &&& waiting.1 == ReceivedView::Pending
            &&& waiting.0.incoming == whole.subrange(0, k)
            &&& receive_of(second).1 == ReceivedView::Message(m)
            &&& receive_of(second).0.incoming == Seq::<u8>::empty()
        }),
{
    let whole = wire_of(m);
    lemma_frame_parts(
        tag_of(m),
        body_of(m),
        Seq::<u8>::empty(),
    );
    assert(whole.len() <= MAX_HELD);
    let part = whole.subrange(0, k);
    assert(v.incoming + part =~= part);
    lemma_decode_partial(m, k);
    let rest = whole.subrange(k, whole.len() as int);
    assert(part + rest =~= whole);
    assert(whole + Seq::<u8>::empty() =~= whole);
    lemma_decode_encoded(m, Seq::<u8>::empty());
    assert(whole.subrange(whole.len() as int, whole.len() as int) =~= Seq::<u8>::empty());
}

/// Whether the connection takes the message in itself.
pub fn is_absorbed(m: &Message) -> (r: bool)
    ensures
        r == absorbed(m@),
{
    match m {
        Message::ParameterStatus { .. } => true,
        Message::Response { error, .. } => !*error,
        _ => false,
    }
}

impl View for PostgresRawConnection {
    type V = ConnectionView;

    closed spec fn view(&self) -> ConnectionView {
        ConnectionView {
            outgoing: self.wbuf@,
            incoming: held(self.rbuf),
            readable: self.stream_readable,
            eof: self.stream_eof,
            process_id: self.process_id,
            secret_key: self.secret_key,
        }
    }
}

impl PostgresRawConnection {
    /// A connection on which nothing was sent or received yet.
    pub fn new() -> (conn: Self)
        ensures
            valid(conn@),
            conn@ == (ConnectionView {
                outgoing: Seq::<u8>::empty(),
                incoming: Seq::<u8>::empty(),
                readable: false,
                eof: false,
                process_id: 0,
                secret_key: 0,
            }),
    {
        PostgresRawConnection {
            wbuf: Vec::with_capacity(1024),
            rbuf: buffer_with_capacity(8192),
            stream_readable: false,
            stream_eof: false,
            process_id: 0,
            secret_key: 0,
        }
    }

    /// Queues `message` for sending: it follows what is queued.
    pub fn write<M: Encode>(&mut self, message: &M)
        requires
            message.fits(),
        ensures
            final(self)@ == (ConnectionView {
                outgoing: old(self)@.outgoing + message.wire(),
                ..old(self)@
            }),
    {
        message.encode(&mut self.wbuf);
    }

    /// The bytes that are queued, for the caller to send. The queue keeps
    /// them until `flush` is told that they were sent.
    pub fn unsent(&self) -> (bytes: &[u8])
        ensures
            bytes@ == self@.outgoing,
    {
        self.wbuf.as_slice()
    }

    /// Takes in how the sending went: `written` says that all of `unsent`
    /// has reached the socket. Only then the queue is emptied; after a failed
    /// write it holds what it held.
    pub fn flush(&mut self, written: bool)
        ensures
            final(self)@ == (if written {
                ConnectionView { outgoing: Seq::<u8>::empty(), ..old(self)@ }
            } else {
                old(self)@
            }),
    {
        if written {
            self.wbuf.clear();
        }
    }

    /// Queues the message that ends the session. The caller sends what is
    /// queued and closes the socket; the connection is not to be used
    /// afterwards.
    pub fn finalize(&mut self)
        ensures
            final(self)@ == (ConnectionView {
                outgoing: old(self)@.outgoing + frame(TAG_TERMINATE, Seq::<u8>::empty()),
                ..old(self)@
            }),
    {
        self.write(&Terminate);
    }

    /// Takes in what the socket gave: `data` is what one read returned, and
    /// is empty where the peer has closed the stream.
    ///
    /// The only failure is `Overflow`, where the read buffer cannot hold
    /// `data` as well; the connection is then as it was.
    pub fn feed(&mut self, data: &[u8]) -> (r: Result<(), Error>)
        requires
            valid(old(self)@),
        ensures
            valid(final(self)@),
            final(self)@ == feed_of(old(self)@, data@),
            r is Err <==> !old(self)@.eof && data@.len() > 0 && old(self)@.incoming.len()
                + data@.len() > MAX_HELD,
            r is Err ==> r == Err::<(), Error>(Error::Overflow),
    {
        if self.stream_eof {
            return Ok(());
        }
        if data.len() == 0 {
            self.stream_eof = true;
            return Ok(());
        }
        let len = buffer_len(&self.rbuf);
        if data.len() > MAX_HELD - len {
            return Err(Error::Overflow);
        }
        buffer_extend(&mut self.rbuf, data);
        self.stream_readable = true;
        Ok(())
    }

    /// The next message from the backend, if the bytes for it are there.
    ///
    /// Once the stream has ended the result is `Closed`, whatever is still
    /// buffered, and the socket is never asked for again. Otherwise whole
    /// messages are decoded from the front of the buffer: reports of session
    /// parameters and notices are passed over, the first other message is
    /// returned. Where the buffer ends before such a message, the result is
    /// `Pending` and the part of a message that is there stays.
    pub fn receive(&mut self) -> (r: Result<Received, Error>)
        requires
            valid(old(self)@),
        ensures
            valid(final(self)@),
            final(self)@ == receive_of(old(self)@).0,
            match receive_of(old(self)@).1 {
                ReceivedView::Message(m) => r matches Ok(Received::Message(x)) && x@ == m,
                ReceivedView::Closed => r matches Ok(Received::Closed),
                ReceivedView::Pending => r matches Ok(Received::Pending),
                ReceivedView::Failed(e) => r == Err::<Received, Error>(Error::Protocol(e)),
            },
    {
        if self.stream_eof {
            return Ok(Received::Closed);
        }
        proof {
            lemma_next_of(self@.incoming);
        }
        if self.stream_readable {
            loop
                invariant_except_break
                    self.stream_readable,
                invariant
                    !self.stream_eof,
                    !old(self)@.eof,
                    self@.outgoing == old(self)@.outgoing,
                    self@.process_id == old(self)@.process_id,
                    self@.secret_key == old(self)@.secret_key,
                    self@.incoming.len() <= MAX_HELD,
                    next_of(self@.incoming) == next_of(old(self)@.incoming),
                ensures
                    !self.stream_readable,
                    decode_of(self@.incoming) is Incomplete,
                decreases self@.incoming.len(),
            {
                proof {
                    lemma_next_of(self@.incoming);
                }
                match decode(&mut self.rbuf) {
                    Err(e) => {
                        return Err(Error::Protocol(e));
                    },
                    Ok(None) => {
                        self.stream_readable = false;
                        break ;
                    },
                    Ok(Some(message)) => {
                        if !is_absorbed(&message) {
                            return Ok(Received::Message(message));
                        }
                    },
                }
            }
        }
        Ok(Received::Pending)
    }

    /// Stores the identifiers that the backend gave for this session.
    pub(crate) fn set_key_data(&mut self, process_id: u32, secret_key: u32)
        ensures
            final(self)@ == (ConnectionView { process_id, secret_key, ..old(self)@ }),
    {
        self.process_id = process_id;
        self.secret_key = secret_key;
    }

    /// The process of the backend that serves this session.
    pub fn process_id(&self) -> (r: u32)
        ensures
            r == self@.process_id,
    {
        self.process_id
    }

    /// The key that authorises cancelling a query of this session.
    pub fn secret_key(&self) -> (r: u32)
        ensures
            r == self@.secret_key,
    {
        self.secret_key
    }

    /// Whether the peer has closed the stream.
    pub fn is_closed(&self) -> (r: bool)
        ensures
            r == self@.eof,
    {
        self.stream_eof
    }

    /// Whether bytes are queued for sending.
    pub fn has_unsent(&self) -> (r: bool)
        ensures
            r == (self@.outgoing.len() > 0),
    {
        self.wbuf.len() > 0
    }

    /// How many bytes one call of `feed` can take at most.
    pub fn room(&self) -> (r: usize)
        requires
            valid(self@),
        ensures
            r == MAX_HELD - self@.incoming.len(),
    {
        MAX_HELD - buffer_len(&self.rbuf)
    }
}

} // verus!
