//! The three ways to run a query: for its row count, for its rows one by
//! one, and for its first row.
//!
//! Each is a state machine that is polled: it decodes as far as the buffered
//! bytes go, and says whether it is done or the socket must be read first.

use crate::connection::{
    grown, lemma_next_of, lemma_receive_followed, receive_of, valid, ConnectionView,
    PostgresRawConnection, Received, ReceivedView,
};
use crate::error::{Error, ErrorView};
use crate::message::Row;
use crate::query::{
    broken, count_view, finish, fresh, over, query_fits, query_wire, step_of, Event, EventView,
    PostgresQueryParameters, Query, QueryView,
};
use vstd::prelude::*;
use vstd::string::StringSliceAdditionalSpecFns;

verus! {

/// Where a polled operation stands.
#[derive(Debug, PartialEq, Eq)]
pub enum Progress<T> {
    /// It needs bytes that have not come: read the socket, feed the
    /// connection, poll again.
    Pending,
    /// It is over, with this result.
    Ready(T),
}

/// A query that is run for the number of rows that it affects.
#[derive(Debug, PartialEq, Eq)]
pub struct Execute {
    pub query: Query,
}

/// A query that is run for its rows, one at a time.
#[derive(Debug, PartialEq, Eq)]
pub struct Fetch {
    pub query: Query,
}

/// A query that is run for its first row.
#[derive(Debug, PartialEq, Eq)]
pub struct FetchOptional {
    pub query: Query,
    pub row: Option<Row>,
}

/// A row that may be absent, as contracts see it.
pub open spec fn optional_row_view(row: Option<Row>) -> Option<Seq<Option<Seq<u8>>>> {
    match row {
        Some(r) => Some(r@),
        None => None,
    }
}

/// The progress of `Execute`, as contracts see it: nothing while pending.
pub open spec fn execute_view(p: Progress<Result<u64, Error>>) -> Option<Result<u64, ErrorView>> {
    match p {
        Progress::Pending => None,
        Progress::Ready(r) => Some(count_view(r)),
    }
}

/// The progress of `Fetch`, as contracts see it: nothing while pending, and
/// no element at the end of the rows.
pub open spec fn fetch_view(p: Progress<Option<Result<Row, Error>>>) -> Option<
    Option<Result<Seq<Option<Seq<u8>>>, ErrorView>>,
> {
    match p {
        Progress::Pending => None,
        Progress::Ready(None) => Some(None),
        Progress::Ready(Some(Ok(row))) => Some(Some(Ok(row@))),
        Progress::Ready(Some(Err(e))) => Some(Some(Err(e@))),
    }
}

/// The progress of `FetchOptional`, as contracts see it: nothing while
/// pending.
pub open spec fn fetch_optional_view(p: Progress<Result<Option<Row>, Error>>) -> Option<
    Result<Option<Seq<Option<Seq<u8>>>>, ErrorView>,
> {
    match p {
        Progress::Pending => None,
        Progress::Ready(Ok(row)) => Some(Ok(optional_row_view(row))),
        Progress::Ready(Err(e)) => Some(Err(e@)),
    }
}

/// What polling `Execute` does to the connection and to the query, and what
/// it returns.
///
/// Messages are received until the exchange is complete, which gives the
/// result; rows are dropped. The poll also ends where the connection has no
/// whole message left, and with an error where the stream has ended or the
/// bytes are no message: the exchange is then broken off. An exchange that
/// was over before gives `Finished`.
pub open spec fn execute_of(v: ConnectionView, q: QueryView) -> (
    ConnectionView,
    QueryView,
    Option<Result<u64, ErrorView>>,
)
    decreases v.incoming.len(),
{
    if over(q) {
        (v, q, Some(Err(ErrorView::Finished)))
    } else {
        let (after, got) = receive_of(v);
        match got {
            ReceivedView::Pending => (after, q, None),
            ReceivedView::Closed => (after, broken(q), Some(Err(ErrorView::Closed))),
            ReceivedView::Failed(e) => (after, broken(q), Some(Err(ErrorView::Protocol(e)))),
            ReceivedView::Message(m) => {
                let (next, event) = step_of(q, m);
                match event {
                    EventView::Complete(r) => (after, next, Some(r)),
                    _ => {
                        proof {
                            lemma_next_of(v.incoming);
                        }
                        execute_of(after, next)
                    },
                }
            },
        }
    }
}

/// What polling `Fetch` does to the connection and to the query, and what
/// it returns.
///
/// Messages are received up to the next row, which is the element. Where
/// the exchange is complete the rows are at their end, after the error as
/// one more element if the backend reported one. A stream that has ended
/// and bytes that are no message give an error as element and break the
/// exchange off. Once the exchange is over every poll finds the rows at
/// their end: an error is always the last element.
pub open spec fn fetch_of(v: ConnectionView, q: QueryView) -> (
    ConnectionView,
    QueryView,
    Option<Option<Result<Seq<Option<Seq<u8>>>, ErrorView>>>,
)
    decreases v.incoming.len(),
{
    if over(q) {
        (v, q, Some(None))
    } else {
        let (after, got) = receive_of(v);
        match got {
            ReceivedView::Pending => (after, q, None),
            ReceivedView::Closed => (after, broken(q), Some(Some(Err(ErrorView::Closed)))),
            ReceivedView::Failed(e) => (
                after,
                broken(q),
                Some(Some(Err(ErrorView::Protocol(e)))),
            ),
            ReceivedView::Message(m) => {
                let (next, event) = step_of(q, m);
                match event {
                    EventView::Row(row) => (after, next, Some(Some(Ok(row)))),
                    EventView::Complete(Ok(_)) => (after, next, Some(None)),
                    EventView::Complete(Err(e)) => (after, next, Some(Some(Err(e)))),
                    EventView::Skip => {
                        proof {
                            lemma_next_of(v.incoming);
                        }
                        fetch_of(after, next)
                    },
                }
            },
        }
    }
}

/// What polling `FetchOptional` does to the connection, to the query and to
/// the row that is kept, and what it returns.
///
/// Messages are received until the exchange is complete. The first row is
/// kept and every later one dropped; the result is the row that was kept,
/// or the error. The poll ends early as that of `Execute` does.
pub open spec fn fetch_optional_of(
    v: ConnectionView,
    q: QueryView,
    kept: Option<Seq<Option<Seq<u8>>>>,
) -> (
    ConnectionView,
    QueryView,
    Option<Seq<Option<Seq<u8>>>>,
    Option<Result<Option<Seq<Option<Seq<u8>>>>, ErrorView>>,
)
    decreases v.incoming.len(),
{
    if over(q) {
        (v, q, kept, Some(Err(ErrorView::Finished)))
    } else {
        let (after, got) = receive_of(v);
        match got {
            ReceivedView::Pending => (after, q, kept, None),
            ReceivedView::Closed => (after, broken(q), kept, Some(Err(ErrorView::Closed))),
            ReceivedView::Failed(e) => (
                after,
                broken(q),
                kept,
                Some(Err(ErrorView::Protocol(e))),
            ),
            ReceivedView::Message(m) => {
                let (next, event) = step_of(q, m);
                match event {
                    EventView::Complete(Ok(_)) => (after, next, None, Some(Ok(kept))),
                    EventView::Complete(Err(e)) => (after, next, kept, Some(Err(e))),
                    EventView::Row(row) => {
                        proof {
                            lemma_next_of(v.incoming);
                        }
                        fetch_optional_of(
                            after,
                            next,
                            if kept is None {
                                Some(row)
                            } else {
                                kept
                            },
                        )
                    },
                    EventView::Skip => {
                        proof {
                            lemma_next_of(v.incoming);
                        }
                        fetch_optional_of(after, next, kept)
                    },
                }
            },
        }
    }
}

/// A poll of `Fetch` that yields a row has used up bytes of the read buffer.
pub proof fn lemma_fetch_uses_bytes(v: ConnectionView, q: QueryView)
    ensures
        fetch_of(v, q).0.incoming.len() <= v.incoming.len(),
        fetch_of(v, q).2 matches Some(Some(Ok(_))) ==> fetch_of(v, q).0.incoming.len()
            < v.incoming.len(),
    decreases v.incoming.len(),
{
    if !over(q) {
        lemma_next_of(v.incoming);
        let (after, got) = receive_of(v);
        if let ReceivedView::Message(m) = got {
            let (next, event) = step_of(q, m);
            if event is Skip {
                lemma_fetch_uses_bytes(after, next);
            }
        }
    }
}

/// The rows that `Fetch` yields, poll after poll, as far as the bytes that
/// are buffered go.
pub open spec fn rows_of(v: ConnectionView, q: QueryView) -> Seq<Seq<Option<Seq<u8>>>>
    decreases v.incoming.len(),
{
    let (after, next, got) = fetch_of(v, q);
    match got {
        Some(Some(Ok(row))) => {
            proof {
                lemma_fetch_uses_bytes(v, q);
            }
            seq![row] + rows_of(after, next)
        },
        _ => Seq::<Seq<Option<Seq<u8>>>>::empty(),
    }
}

/// Where `FetchOptional` gives a result, it is the row that it had kept
/// before, or else the first of the rows that `Fetch` yields from the same
/// bytes, or nothing where `Fetch` yields none: however many rows the
/// backend sends, no second one is returned.
pub proof fn lemma_fetch_optional_first_row(
    v: ConnectionView,
    q: QueryView,
    kept: Option<Seq<Option<Seq<u8>>>>,
)
    ensures
        fetch_optional_of(v, q, kept).3 matches Some(Ok(found)) ==> found == (if kept is Some {
            kept
        } else if rows_of(v, q).len() > 0 {
            Some(rows_of(v, q)[0])
        } else {
            None
        }),
    decreases v.incoming.len(),
{
    if !over(q) {
        lemma_next_of(v.incoming);
        let (after, got) = receive_of(v);
        if let ReceivedView::Message(m) = got {
            let (next, event) = step_of(q, m);
            match event {
                EventView::Row(row) => {
                    let now = if kept is None {
                        Some(row)
                    } else {
                        kept
                    };
                    lemma_fetch_optional_first_row(after, next, now);
                    assert(rows_of(v, q)[0] == row);
                },
                EventView::Skip => {
                    lemma_fetch_optional_first_row(after, next, kept);
                    assert(fetch_of(v, q) == fetch_of(after, next));
                },
                EventView::Complete(_) => {},
            }
        }
    }
}

/// A poll that gives a result gives the same result, and leaves the query in
/// the same state, with more bytes behind those that the connection holds:
/// it reads no byte of what follows the answer, and leaves all of it in the
/// buffer.
pub proof fn lemma_what_follows_is_kept(
    v: ConnectionView,
    q: QueryView,
    kept: Option<Seq<Option<Seq<u8>>>>,
    more: Seq<u8>,
)
    ensures
        execute_of(v, q).2 is Some ==> execute_of(grown(v, more), q) == (
            grown(execute_of(v, q).0, more),
            execute_of(v, q).1,
            execute_of(v, q).2,
        ),
        fetch_of(v, q).2 is Some ==> fetch_of(grown(v, more), q) == (
            grown(fetch_of(v, q).0, more),
            fetch_of(v, q).1,
            fetch_of(v, q).2,
        ),
        fetch_optional_of(v, q, kept).3 is Some ==> fetch_optional_of(grown(v, more), q, kept) == (
            grown(fetch_optional_of(v, q, kept).0, more),
            fetch_optional_of(v, q, kept).1,
            fetch_optional_of(v, q, kept).2,
            fetch_optional_of(v, q, kept).3,
        ),
    decreases v.incoming.len(),
{
    if !over(q) {
        lemma_next_of(v.incoming);
        lemma_receive_followed(v, more);
        let (after, got) = receive_of(v);
        if let ReceivedView::Message(m) = got {
            let (next, event) = step_of(q, m);
            match event {
                EventView::Row(row) => {
                    lemma_what_follows_is_kept(after, next, kept, more);
                    lemma_what_follows_is_kept(after, next, Some(row), more);
                },
                EventView::Skip => {
                    lemma_what_follows_is_kept(after, next, kept, more);
                },
                EventView::Complete(_) => {},
            }
        }
    }
}

/// A poll reads the bytes that came and whether the stream has ended, and
/// nothing else of the connection: what was sent before, and what the session
/// is, do not change its result.
pub proof fn lemma_polls_read_only_the_stream(
    v: ConnectionView,
    w: ConnectionView,
    q: QueryView,
    kept: Option<Seq<Option<Seq<u8>>>>,
)
    requires
        v.incoming == w.incoming,
        v.eof == w.eof,
    ensures
        execute_of(v, q).0.incoming == execute_of(w, q).0.incoming,
        execute_of(v, q).1 == execute_of(w, q).1,
        execute_of(v, q).2 == execute_of(w, q).2,
        fetch_of(v, q).0.incoming == fetch_of(w, q).0.incoming,
        fetch_of(v, q).1 == fetch_of(w, q).1,
        fetch_of(v, q).2 == fetch_of(w, q).2,
        fetch_optional_of(v, q, kept).0.incoming == fetch_optional_of(w, q, kept).0.incoming,
        fetch_optional_of(v, q, kept).1 == fetch_optional_of(w, q, kept).1,
        fetch_optional_of(v, q, kept).2 == fetch_optional_of(w, q, kept).2,
        fetch_optional_of(v, q, kept).3 == fetch_optional_of(w, q, kept).3,
    decreases v.incoming.len(),
{
    if !over(q) {
        lemma_next_of(v.incoming);
        let (after, got) = receive_of(v);
        let (other, _) = receive_of(w);
        if let ReceivedView::Message(m) = got {
            let (next, event) = step_of(q, m);
            match event {
                EventView::Row(row) => {
                    lemma_polls_read_only_the_stream(after, other, next, kept);
                    lemma_polls_read_only_the_stream(after, other, next, Some(row));
                },
                EventView::Skip => {
                    lemma_polls_read_only_the_stream(after, other, next, kept);
                },
                EventView::Complete(_) => {},
            }
        }
    }
}

/// The next query is not disturbed by the one before it. Where an operation
/// gives its result from an answer and leaves nothing of it, it gives that
/// result as well when the answer to the next query has already come behind
/// it, and leaves exactly that next answer. Every poll for the next query
/// then gives what it gives on any other connection that holds only that
/// answer: no byte of the earlier answer is taken for a part of the next, and
/// no earlier result or error is given again. This holds whatever the first
/// answer was: rows or none, a success or an error of the backend.
pub proof fn lemma_next_query_finds_only_its_answer(
    v: ConnectionView,
    q: QueryView,
    kept: Option<Seq<Option<Seq<u8>>>>,
    answer: Seq<u8>,
    w: ConnectionView,
    next: QueryView,
    next_kept: Option<Seq<Option<Seq<u8>>>>,
)
    requires
        w.incoming == answer,
        w.eof == v.eof,
    ensures
        execute_of(v, q).2 is Some && execute_of(v, q).0.incoming.len() == 0 ==> ({
            let first = execute_of(grown(v, answer), q);
            &&& first.1 == execute_of(v, q).1
            &&& first.2 == execute_of(v, q).2
            &&& first.0.incoming == answer
            &&& execute_of(first.0, next).2 == execute_of(w, next).2
            &&& fetch_of(first.0, next).2 == fetch_of(w, next).2
            &&& fetch_optional_of(first.0, next, next_kept).3 == fetch_optional_of(
                w,
                next,
                next_kept,
            ).3
        }),
        fetch_of(v, q).2 is Some && fetch_of(v, q).0.incoming.len() == 0 ==> ({
            let first = fetch_of(grown(v, answer), q);
            &&& first.1 == fetch_of(v, q).1
            &&& first.2 == fetch_of(v, q).2
            &&& first.0.incoming == answer
            &&& execute_of(first.0, next).2 == execute_of(w, next).2
            &&& fetch_of(first.0, next).2 == fetch_of(w, next).2
            &&& fetch_optional_of(first.0, next, next_kept).3 == fetch_optional_of(
                w,
                next,
                next_kept,
            ).3
        }),
        fetch_optional_of(v, q, kept).3 is Some && fetch_optional_of(v, q, kept).0.incoming.len()
            == 0 ==> ({
            let first = fetch_optional_of(grown(v, answer), q, kept);
            &&& first.1 == fetch_optional_of(v, q, kept).1
            &&& first.3 == fetch_optional_of(v, q, kept).3
            &&& first.0.incoming == answer
            &&& execute_of(first.0, next).2 == execute_of(w, next).2
            &&& fetch_of(first.0, next).2 == fetch_of(w, next).2
            &&& fetch_optional_of(first.0, next, next_kept).3 == fetch_optional_of(
                w,
                next,
                next_kept,
            ).3
        }),
{
    lemma_what_follows_is_kept(v, q, kept, answer);
    if execute_of(v, q).2 is Some && execute_of(v, q).0.incoming.len() == 0 {
        let first = execute_of(grown(v, answer), q);
        assert(first.0.incoming =~= answer);
        lemma_eof_is_kept(v, q, kept);
        lemma_polls_read_only_the_stream(first.0, w, next, next_kept);
    }
    if fetch_of(v, q).2 is Some && fetch_of(v, q).0.incoming.len() == 0 {
        let first = fetch_of(grown(v, answer), q);
        assert(first.0.incoming =~= answer);
        lemma_eof_is_kept(v, q, kept);
        lemma_polls_read_only_the_stream(first.0, w, next, next_kept);
    }
    if fetch_optional_of(v, q, kept).3 is Some && fetch_optional_of(v, q, kept).0.incoming.len()
        == 0 {
        let first = fetch_optional_of(grown(v, answer), q, kept);
        assert(first.0.incoming =~= answer);
        lemma_eof_is_kept(v, q, kept);
        lemma_polls_read_only_the_stream(first.0, w, next, next_kept);
    }
}

/// No poll changes whether the stream has ended, what is queued for
/// sending, or what the session is.
pub proof fn lemma_eof_is_kept(
    v: ConnectionView,
    q: QueryView,
    kept: Option<Seq<Option<Seq<u8>>>>,
)
    ensures
        execute_of(v, q).0 == (ConnectionView {
            incoming: execute_of(v, q).0.incoming,
            readable: execute_of(v, q).0.readable,
            ..v
        }),
        fetch_of(v, q).0 == (ConnectionView {
            incoming: fetch_of(v, q).0.incoming,
            readable: fetch_of(v, q).0.readable,
            ..v
        }),
        fetch_optional_of(v, q, kept).0 == (ConnectionView {
            incoming: fetch_optional_of(v, q, kept).0.incoming,
            readable: fetch_optional_of(v, q, kept).0.readable,
            ..v
        }),
    decreases v.incoming.len(),
{
    if !over(q) {
        lemma_next_of(v.incoming);
        let (after, got) = receive_of(v);
        if let ReceivedView::Message(m) = got {
            let (next, event) = step_of(q, m);
            match event {
                EventView::Row(row) => {
                    lemma_eof_is_kept(after, next, kept);
                    lemma_eof_is_kept(after, next, Some(row));
                },
                EventView::Skip => {
                    lemma_eof_is_kept(after, next, kept);
                },
                EventView::Complete(_) => {},
            }
        }
    }
}

/// Whether a result is a success or an error that the backend reported.
pub open spec fn answered<T>(r: Result<T, ErrorView>) -> bool {
    match r {
        Ok(_) => true,
        Err(ErrorView::Backend { .. }) => true,
        Err(_) => false,
    }
}

/// An operation gives a success, or the backend's error, only once the
/// backend has said that it is ready: the whole answer has then left the read
/// buffer, and the next query finds the stream at a message boundary. This
/// holds for `FetchOptional` too, which reads on after it has its row, and
/// for the end of the rows of `Fetch` unless the exchange had broken off.
pub proof fn lemma_answer_is_read_to_its_end(
    v: ConnectionView,
    q: QueryView,
    kept: Option<Seq<Option<Seq<u8>>>>,
)
    ensures
        execute_of(v, q).2 matches Some(r) && answered(r) ==> execute_of(v, q).1.phase is Done,
        !(q.phase is Errored) ==> (fetch_of(v, q).2 matches Some(None) ==> fetch_of(
            v,
            q,
        ).1.phase is Done),
        fetch_of(v, q).2 matches Some(Some(Err(ErrorView::Backend { .. }))) ==> fetch_of(
            v,
            q,
        ).1.phase is Done,
        fetch_optional_of(v, q, kept).3 matches Some(r) && answered(r) ==> fetch_optional_of(
            v,
            q,
            kept,
        ).1.phase is Done,
    decreases v.incoming.len(),
{
    if !over(q) {
        lemma_next_of(v.incoming);
        let (after, got) = receive_of(v);
        if let ReceivedView::Message(m) = got {
            let (next, event) = step_of(q, m);
            match event {
                EventView::Row(row) => {
                    lemma_answer_is_read_to_its_end(after, next, kept);
                    lemma_answer_is_read_to_its_end(after, next, Some(row));
                },
                EventView::Skip => {
                    lemma_answer_is_read_to_its_end(after, next, kept);
                },
                EventView::Complete(_) => {},
            }
        }
    }
}

/// An error is the last element that `Fetch` yields: the poll after it finds
/// the rows at their end, and reads nothing.
pub proof fn lemma_fetch_ends_after_error(v: ConnectionView, q: QueryView)
    ensures
        fetch_of(v, q).2 matches Some(Some(Err(_))) ==> over(fetch_of(v, q).1) && fetch_of(
            fetch_of(v, q).0,
            fetch_of(v, q).1,
        ) == (fetch_of(v, q).0, fetch_of(v, q).1, Some(None::<Result<Seq<Option<Seq<u8>>>, ErrorView>>)),
    decreases v.incoming.len(),
{
    if !over(q) {
        lemma_next_of(v.incoming);
        let (after, got) = receive_of(v);
        if let ReceivedView::Message(m) = got {
            let (next, event) = step_of(q, m);
            if event is Skip {
                lemma_fetch_ends_after_error(after, next);
            }
        }
    }
}

/// Where the stream has ended no poll asks for the socket to be read: each
/// gives a result at once.
pub proof fn lemma_closed_is_never_pending(
    v: ConnectionView,
    q: QueryView,
    kept: Option<Seq<Option<Seq<u8>>>>,
)
    requires
        v.eof,
    ensures
        execute_of(v, q).2 is Some,
        fetch_of(v, q).2 is Some,
        fetch_optional_of(v, q, kept).3 is Some,
{
}

impl Execute {
    /// Reads the answer as far as it has come.
    pub fn poll(&mut self, conn: &mut PostgresRawConnection) -> (r: Progress<Result<u64, Error>>)
        requires
            valid(old(conn)@),
        ensures
            valid(final(conn)@),
            (final(conn)@, final(self).query@, execute_view(r)) == execute_of(
                old(conn)@,
                old(self).query@,
            ),
    {
        loop
            invariant
                valid(conn@),
                execute_of(conn@, self.query@) == execute_of(old(conn)@, old(self).query@),
            decreases conn@.incoming.len(),
        {
            if self.query.is_over() {
                return Progress::Ready(Err(Error::Finished));
            }
            proof {
                lemma_next_of(conn@.incoming);
            }
            match conn.receive() {
                Err(e) => {
                    self.query.fail();
                    return Progress::Ready(Err(e));
                },
                Ok(Received::Pending) => {
                    return Progress::Pending;
                },
                Ok(Received::Closed) => {
                    self.query.fail();
                    return Progress::Ready(Err(Error::Closed));
                },
                Ok(Received::Message(message)) => {
                    match self.query.step(message) {
                        Event::Complete(r) => {
                            return Progress::Ready(r);
                        },
                        _ => {},
                    }
                },
            }
        }
    }
}

impl Fetch {
    /// Reads the answer up to its next row.
    ///
    /// `Ready(None)` is the end of the rows.
    pub fn poll_next(&mut self, conn: &mut PostgresRawConnection) -> (r: Progress<
        Option<Result<Row, Error>>,
    >)
        requires
            valid(old(conn)@),
        ensures
            valid(final(conn)@),
            (final(conn)@, final(self).query@, fetch_view(r)) == fetch_of(
                old(conn)@,
                old(self).query@,
            ),
    {
        loop
            invariant
                valid(conn@),
                fetch_of(conn@, self.query@) == fetch_of(old(conn)@, old(self).query@),
            decreases conn@.incoming.len(),
        {
            if self.query.is_over() {
                return Progress::Ready(None);
            }
            proof {
                lemma_next_of(conn@.incoming);
            }
            match conn.receive() {
                Err(e) => {
                    self.query.fail();
                    return Progress::Ready(Some(Err(e)));
                },
                Ok(Received::Pending) => {
                    return Progress::Pending;
                },
                Ok(Received::Closed) => {
                    self.query.fail();
                    return Progress::Ready(Some(Err(Error::Closed)));
                },
                Ok(Received::Message(message)) => {
                    match self.query.step(message) {
                        Event::Row(row) => {
                            return Progress::Ready(Some(Ok(row)));
                        },
                        Event::Complete(Ok(_)) => {
                            return Progress::Ready(None);
                        },
                        Event::Complete(Err(e)) => {
                            return Progress::Ready(Some(Err(e)));
                        },
                        Event::Skip => {},
                    }
                },
            }
        }
    }
}

impl FetchOptional {
    /// Reads the answer as far as it has come.
    pub fn poll(&mut self, conn: &mut PostgresRawConnection) -> (r: Progress<
        Result<Option<Row>, Error>,
    >)
        requires
            valid(old(conn)@),
        ensures
            valid(final(conn)@),
            (
                final(conn)@,
                final(self).query@,
                optional_row_view(final(self).row),
                fetch_optional_view(r),
            ) == fetch_optional_of(
                old(conn)@,
                old(self).query@,
                optional_row_view(old(self).row),
            ),
    {
        loop
            invariant
                valid(conn@),
                fetch_optional_of(conn@, self.query@, optional_row_view(self.row))
                    == fetch_optional_of(
                    old(conn)@,
                    old(self).query@,
                    optional_row_view(old(self).row),
                ),
            decreases conn@.incoming.len(),
        {
            if self.query.is_over() {
                return Progress::Ready(Err(Error::Finished));
            }
            proof {
                lemma_next_of(conn@.incoming);
            }
            match conn.receive() {
                Err(e) => {
                    self.query.fail();
                    return Progress::Ready(Err(e));
                },
                Ok(Received::Pending) => {
                    return Progress::Pending;
                },
                Ok(Received::Closed) => {
                    self.query.fail();
                    return Progress::Ready(Err(Error::Closed));
                },
                Ok(Received::Message(message)) => {
                    match self.query.step(message) {
                        Event::Row(row) => {
                            if self.row.is_none() {
                                self.row = Some(row);
                            }
                        },
                        Event::Complete(Ok(_)) => {
                            return Progress::Ready(Ok(self.row.take()));
                        },
                        Event::Complete(Err(e)) => {
                            return Progress::Ready(Err(e));
                        },
                        Event::Skip => {},
                    }
                },
            }
        }
    }
}

impl PostgresRawConnection {
    /// Queues a query that is run for the number of rows that it affects:
    /// the row limit sent is 0, which is none.
    pub fn execute(&mut self, query: &str, params: PostgresQueryParameters) -> (r: Result<
        Execute,
        Error,
    >)
        ensures
            r is Ok <==> query_fits(query.spec_bytes(), params.types@, params.buf@),
            r matches Ok(driver) ==> driver.query@ == fresh() && final(self)@ == (ConnectionView {
                outgoing: old(self)@.outgoing + query_wire(
                    query.spec_bytes(),
                    params.types@,
                    params.buf@,
                    0,
                ),
                ..old(self)@
            }),
            r matches Err(e) ==> e@ == ErrorView::TooLarge && final(self)@ == old(self)@,
    {
        match finish(self, query, params, 0) {
            Ok(()) => Ok(Execute { query: Query::new() }),
            Err(e) => Err(e),
        }
    }

    /// Queues a query that is run for its rows: the row limit sent is 0,
    /// which is none.
    pub fn fetch(&mut self, query: &str, params: PostgresQueryParameters) -> (r: Result<
        Fetch,
        Error,
    >)
        ensures
            r is Ok <==> query_fits(query.spec_bytes(), params.types@, params.buf@),
            r matches Ok(driver) ==> driver.query@ == fresh() && final(self)@ == (ConnectionView {
                outgoing: old(self)@.outgoing + query_wire(
                    query.spec_bytes(),
                    params.types@,
                    params.buf@,
                    0,
                ),
                ..old(self)@
            }),
            r matches Err(e) ==> e@ == ErrorView::TooLarge && final(self)@ == old(self)@,
    {
        match finish(self, query, params, 0) {
            Ok(()) => Ok(Fetch { query: Query::new() }),
            Err(e) => Err(e),
        }
    }

    /// Queues a query that is run for its first row: the row limit sent
    /// is 1.
    pub fn fetch_optional(&mut self, query: &str, params: PostgresQueryParameters) -> (r: Result<
        FetchOptional,
        Error,
    >)
        ensures
            r is Ok <==> query_fits(query.spec_bytes(), params.types@, params.buf@),
            r matches Ok(driver) ==> driver.query@ == fresh() && driver.row is None,
            r is Ok ==> final(self)@ == (ConnectionView {
                outgoing: old(self)@.outgoing + query_wire(
                    query.spec_bytes(),
                    params.types@,
                    params.buf@,
                    1,
                ),
                ..old(self)@
            }),
            r matches Err(e) ==> e@ == ErrorView::TooLarge && final(self)@ == old(self)@,
    {
        match finish(self, query, params, 1) {
            Ok(()) => Ok(FetchOptional { query: Query::new(), row: None }),
            Err(e) => Err(e),
        }
    }
}

} // verus!
