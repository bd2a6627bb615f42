//! What the three ways to run a query give for a whole answer of the
//! backend: rows, then the end of the command or an error report, then the
//! word that the backend is ready.

use crate::codec::lemma_decode_encoded;
use crate::connection::{
    absorbed, lemma_next_of, next_of, receive_of, ConnectionView, Next, ReceivedView,
};
use crate::driver::{
    execute_of, fetch_of, fetch_optional_of, lemma_fetch_uses_bytes,
    lemma_polls_read_only_the_stream,
};
use crate::error::ErrorView;
use crate::message::{
    field_or_empty, well_formed, wire_of, MessageView, FIELD_MESSAGE, FIELD_SEVERITY,
};
use crate::query::{affected_rows, over, step_of, EventView, QueryView};
use vstd::prelude::*;

verus! {

/// The rows of an answer as they travel: one message for each, in order.
pub open spec fn rows_wire(rows: Seq<Seq<Option<Seq<u8>>>>) -> Seq<u8>
    decreases rows.len(),
{
    if rows.len() == 0 {
        Seq::<u8>::empty()
    } else {
        wire_of(MessageView::DataRow { row: rows[0] }) + rows_wire(
            rows.subrange(1, rows.len() as int),
        )
    }
}

/// Whether each row can be written as a message.
pub open spec fn rows_well_formed(rows: Seq<Seq<Option<Seq<u8>>>>) -> bool {
    forall|i: int|
        0 <= i < rows.len() ==> well_formed(MessageView::DataRow { row: #[trigger] rows[i] })
}

/// Whether a message ends the rows of an answer: the end of the command
/// does, and an error report does.
pub open spec fn closes(c: MessageView) -> bool {
    &&& well_formed(c)
    &&& match c {
        MessageView::CommandComplete { .. } => true,
        MessageView::Response { error, .. } => error,
        _ => false,
    }
}

/// What an answer gives that ends with `c`: the number of rows that the end
/// of the command reports, or the error with the severity and the text of the
/// report.
pub open spec fn outcome_of(c: MessageView) -> Result<u64, ErrorView> {
    match c {
        MessageView::Response { fields, .. } => Err(
            ErrorView::Backend {
                severity: field_or_empty(fields, FIELD_SEVERITY),
                message: field_or_empty(fields, FIELD_MESSAGE),
            },
        ),
        MessageView::CommandComplete { tag } => Ok(affected_rows(tag)),
        _ => Ok(0),
    }
}

/// A whole answer as it travels: the rows, the message that ends them, and
/// the word that the backend is ready.
pub open spec fn answer_wire(rows: Seq<Seq<Option<Seq<u8>>>>, c: MessageView, status: u8) -> Seq<
    u8,
> {
    rows_wire(rows) + wire_of(c) + wire_of(MessageView::ReadyForQuery { status })
}

/// All that `Fetch` yields, poll after poll, as far as the bytes that are
/// buffered go: rows, and at most one error, which is the last element.
pub open spec fn elements_of(v: ConnectionView, q: QueryView) -> Seq<
    Result<Seq<Option<Seq<u8>>>, ErrorView>,
>
    decreases v.incoming.len(),
{
    let (after, next, got) = fetch_of(v, q);
    match got {
        Some(Some(Ok(row))) => {
            proof {
                lemma_fetch_uses_bytes(v, q);
            }
            seq![Ok(row)] + elements_of(after, next)
        },
        Some(Some(Err(e))) => seq![Err(e)],
        _ => Seq::<Result<Seq<Option<Seq<u8>>>, ErrorView>>::empty(),
    }
}

/// The rows as elements of a sequence that may hold an error.
pub open spec fn yielded(rows: Seq<Seq<Option<Seq<u8>>>>) -> Seq<
    Result<Seq<Option<Seq<u8>>>, ErrorView>,
> {
    Seq::new(rows.len(), |i: int| Ok(rows[i]))
}

/// The row that is kept of an answer: the one that was kept before it, or
/// else its first row, or none.
pub open spec fn first_of(
    kept: Option<Seq<Option<Seq<u8>>>>,
    rows: Seq<Seq<Option<Seq<u8>>>>,
) -> Option<Seq<Option<Seq<u8>>>> {
    if kept is Some {
        kept
    } else if rows.len() > 0 {
        Some(rows[0])
    } else {
        None
    }
}

/// The connection after a message at the front of its buffer was decoded.
pub open spec fn behind(v: ConnectionView, more: Seq<u8>) -> ConnectionView {
    ConnectionView { incoming: more, readable: true, ..v }
}

/// A well-formed message at the front of the buffer is what `receive` gives,
/// unless the connection takes it in itself; the bytes behind it stay.
pub proof fn lemma_receive_encoded(v: ConnectionView, m: MessageView, more: Seq<u8>)
    requires
        !v.eof,
        well_formed(m),
        v.incoming == wire_of(m) + more,
    ensures
        next_of(v.incoming) == (if absorbed(m) {
            next_of(more)
        } else {
            Next::Message { message: m, rest: more }
        }),
        !absorbed(m) ==> receive_of(v) == (behind(v, more), ReceivedView::Message(m)),
{
    lemma_decode_encoded(m, more);
}

/// A message that the connection takes in itself, or that leaves the query
/// as it is and means nothing to the caller, changes the result of no poll:
/// each gives what it gives on the bytes behind that message. So the
/// messages that say that a statement was parsed and bound, notices and
/// parameter reports may stand anywhere in an answer.
pub proof fn lemma_passed_over(
    v: ConnectionView,
    q: QueryView,
    kept: Option<Seq<Option<Seq<u8>>>>,
    m: MessageView,
    more: Seq<u8>,
)
    requires
        !v.eof,
        !over(q),
        well_formed(m),
        v.incoming == wire_of(m) + more,
        absorbed(m) || step_of(q, m) == (q, EventView::Skip),
    ensures
        execute_of(v, q).1 == execute_of(behind(v, more), q).1,
        execute_of(v, q).2 == execute_of(behind(v, more), q).2,
        execute_of(v, q).0.incoming == execute_of(behind(v, more), q).0.incoming,
        fetch_of(v, q).1 == fetch_of(behind(v, more), q).1,
        fetch_of(v, q).2 == fetch_of(behind(v, more), q).2,
        fetch_of(v, q).0.incoming == fetch_of(behind(v, more), q).0.incoming,
        fetch_optional_of(v, q, kept).1 == fetch_optional_of(behind(v, more), q, kept).1,
        fetch_optional_of(v, q, kept).2 == fetch_optional_of(behind(v, more), q, kept).2,
        fetch_optional_of(v, q, kept).3 == fetch_optional_of(behind(v, more), q, kept).3,
        fetch_optional_of(v, q, kept).0.incoming == fetch_optional_of(
            behind(v, more),
            q,
            kept,
        ).0.incoming,
{
    lemma_receive_encoded(v, m, more);
    if absorbed(m) {
        assert(next_of(v.incoming) == next_of(behind(v, more).incoming));
        lemma_next_of(more);
        let a = receive_of(v);
        let b = receive_of(behind(v, more));
        assert(a.1 == b.1);
        assert(a.0.incoming == b.0.incoming);
        if let ReceivedView::Message(found) = a.1 {
            lemma_polls_read_only_the_stream(a.0, b.0, step_of(q, found).0, kept);
            if let EventView::Row(row) = step_of(q, found).1 {
                lemma_polls_read_only_the_stream(a.0, b.0, step_of(q, found).0, Some(row));
            }
        }
    }
}

/// A row at the front of the buffer, while rows are awaited: `Execute` drops
/// it and reads on, `Fetch` yields it, and `FetchOptional` keeps it unless it
/// has kept one before, and reads on.
pub proof fn lemma_one_row(
    v: ConnectionView,
    q: QueryView,
    kept: Option<Seq<Option<Seq<u8>>>>,
    row: Seq<Option<Seq<u8>>>,
    more: Seq<u8>,
)
    requires
        !v.eof,
        q.phase is AwaitingRows,
        well_formed(MessageView::DataRow { row }),
        v.incoming == wire_of(MessageView::DataRow { row }) + more,
    ensures
        execute_of(v, q) == execute_of(behind(v, more), q),
        fetch_of(v, q) == (
            behind(v, more),
            q,
            Some(Some(Ok::<Seq<Option<Seq<u8>>>, ErrorView>(row))),
        ),
        fetch_optional_of(v, q, kept) == fetch_optional_of(
            behind(v, more),
            q,
            if kept is None {
                Some(row)
            } else {
                kept
            },
        ),
{
    let first = MessageView::DataRow { row };
    lemma_receive_encoded(v, first, more);
    assert(step_of(q, first) == (q, EventView::Row(row)));
}

/// The end of an answer at the front of the buffer: the message that ends
/// the rows, then the word that the backend is ready. `Execute` gives the
/// outcome, `Fetch` the error as its last element or the end of the rows, and
/// `FetchOptional` the row that it has kept or the error; the bytes behind
/// stay.
pub proof fn lemma_end_of_answer(
    v: ConnectionView,
    q: QueryView,
    kept: Option<Seq<Option<Seq<u8>>>>,
    c: MessageView,
    status: u8,
    more: Seq<u8>,
)
    requires
        !v.eof,
        q.phase is AwaitingRows,
        q.failure is None,
        closes(c),
        v.incoming == wire_of(c) + wire_of(MessageView::ReadyForQuery { status }) + more,
    ensures
        execute_of(v, q).2 == Some(outcome_of(c)),
        execute_of(v, q).1.phase is Done,
        execute_of(v, q).0.incoming == more,
        fetch_of(v, q).2 == (match outcome_of(c) {
            Ok(_) => Some(None::<Result<Seq<Option<Seq<u8>>>, ErrorView>>),
            Err(e) => Some(Some(Err::<Seq<Option<Seq<u8>>>, ErrorView>(e))),
        }),
        fetch_of(v, q).1.phase is Done,
        fetch_of(v, q).0.incoming == more,
        fetch_optional_of(v, q, kept).3 == Some(
            match outcome_of(c) {
                Ok(_) => Ok(kept),
                Err(e) => Err(e),
            },
        ),
        fetch_optional_of(v, q, kept).1.phase is Done,
        fetch_optional_of(v, q, kept).0.incoming == more,
{
    let ready = MessageView::ReadyForQuery { status };
    let tail = wire_of(ready) + more;
    assert(v.incoming =~= wire_of(c) + tail);
    lemma_receive_encoded(v, c, tail);
    let v1 = behind(v, tail);
    let q1 = step_of(q, c).0;
    assert(step_of(q, c).1 == EventView::Skip);
    assert(!over(q1));
    assert(execute_of(v, q) == execute_of(v1, q1));
    assert(fetch_of(v, q) == fetch_of(v1, q1));
    assert(fetch_optional_of(v, q, kept) == fetch_optional_of(v1, q1, kept));
    assert(seq![status].len() == 1);
    assert(well_formed(ready));
    lemma_receive_encoded(v1, ready, more);
    assert(step_of(q1, ready).1 == EventView::Complete(outcome_of(c)));
    assert(step_of(q1, ready).0.phase is Done);
}

/// What a whole answer gives. The connection holds the rows of an answer,
/// the message that ends them and the word that the backend is ready, and
/// any bytes behind them; the query awaits rows and no error was reported.
/// Then:
/// - `Execute` gives the number of rows that the end of the command reports,
///   or the error of the report;
/// - `Fetch` yields every row, in order, then the error if the answer ends
///   with one, and then nothing: it does not end in silence after the last
///   row where the backend reported an error;
/// - `FetchOptional` gives the first row, or the one it had kept, or none
///   where there is no row, and the error if the answer ends with one;
/// - `Execute` and `FetchOptional` leave exactly the bytes behind the answer,
///   and the backend has been heard to be ready.
pub proof fn lemma_whole_answer(
    v: ConnectionView,
    q: QueryView,
    kept: Option<Seq<Option<Seq<u8>>>>,
    rows: Seq<Seq<Option<Seq<u8>>>>,
    c: MessageView,
    status: u8,
    more: Seq<u8>,
)
    requires
        !v.eof,
        q.phase is AwaitingRows,
        q.failure is None,
        rows_well_formed(rows),
        closes(c),
        v.incoming == answer_wire(rows, c, status) + more,
    ensures
        execute_of(v, q).2 == Some(outcome_of(c)),
        execute_of(v, q).1.phase is Done,
        execute_of(v, q).0.incoming == more,
        elements_of(v, q) == (match outcome_of(c) {
            Ok(_) => yielded(rows),
            Err(e) => yielded(rows).push(Err(e)),
        }),
        fetch_optional_of(v, q, kept).3 == Some(
            match outcome_of(c) {
                Ok(_) => Ok(first_of(kept, rows)),
                Err(e) => Err(e),
            },
        ),
        fetch_optional_of(v, q, kept).1.phase is Done,
        fetch_optional_of(v, q, kept).0.incoming == more,
    decreases rows.len(),
{
    let ready = MessageView::ReadyForQuery { status };
    if rows.len() == 0 {
        assert(rows_wire(rows) =~= Seq::<u8>::empty());
        assert(v.incoming =~= wire_of(c) + wire_of(ready) + more);
        lemma_end_of_answer(v, q, kept, c, status, more);
        assert(yielded(rows) =~= Seq::<Result<Seq<Option<Seq<u8>>>, ErrorView>>::empty());
        match outcome_of(c) {
            Ok(_) => {},
            Err(e) => {
                assert(yielded(rows).push(Err(e)) =~= seq![Err(e)]);
            },
        }
    } else {
        let row = rows[0];
        let others = rows.subrange(1, rows.len() as int);
        let tail = answer_wire(others, c, status) + more;
        assert(v.incoming =~= wire_of(MessageView::DataRow { row }) + tail);
        let v1 = behind(v, tail);
        let now = if kept is None {
            Some(row)
        } else {
            kept
        };
        lemma_one_row(v, q, kept, row, tail);
        assert forall|i: int| 0 <= i < others.len() implies well_formed(
            MessageView::DataRow { row: #[trigger] others[i] },
        ) by {
            assert(others[i] == rows[i + 1]);
        }
        lemma_whole_answer(v1, q, now, others, c, status, more);
        assert(first_of(now, others) == first_of(kept, rows));
        lemma_elements_after_row(v, q, row, others, v1);
        match outcome_of(c) {
            Ok(_) => {},
            Err(e) => {
                assert(seq![Ok::<Seq<Option<Seq<u8>>>, ErrorView>(row)] + yielded(others).push(
                    Err(e),
                ) =~= yielded(rows).push(Err(e)));
            },
        }
    }
}

/// The elements of `Fetch` behind a row that it yields.
proof fn lemma_elements_after_row(
    v: ConnectionView,
    q: QueryView,
    row: Seq<Option<Seq<u8>>>,
    others: Seq<Seq<Option<Seq<u8>>>>,
    v1: ConnectionView,
)
    requires
        fetch_of(v, q) == (v1, q, Some(Some(Ok::<Seq<Option<Seq<u8>>>, ErrorView>(row)))),
    ensures
        elements_of(v, q) == seq![Ok::<Seq<Option<Seq<u8>>>, ErrorView>(row)] + elements_of(v1, q),
        seq![Ok::<Seq<Option<Seq<u8>>>, ErrorView>(row)] + yielded(others) == yielded(
            seq![row] + others,
        ),
{
    assert(seq![Ok::<Seq<Option<Seq<u8>>>, ErrorView>(row)] + yielded(others) =~= yielded(
        seq![row] + others,
    ));
}

} // verus!
