//! The extended-query exchange: what is sent for one query, and the state
//! machine that reads the answer.

use crate::connection::{ConnectionView, PostgresRawConnection};
use crate::error::{Error, ErrorView, ProtocolError};
use crate::frontend::{
    bind_payload, execute_payload, parse_payload, Bind, Encode, Execute, Parse, Sync,
    MAX_COUNT, TAG_BIND, TAG_EXECUTE, TAG_PARSE, TAG_SYNC,
};
use crate::message::{
    column_wire, field_or_empty, find_field, Message, MessageView, Row, FIELD_MESSAGE,
    FIELD_SEVERITY, TAG_AUTHENTICATION, TAG_BACKEND_KEY_DATA,
};
use crate::wire::{
    be32, frame, lemma_be16_all_len, lemma_be32_all_len, optional_slice, put_bytes, put_u32,
    MAX_FRAME_LENGTH,
};
use vstd::prelude::*;
use vstd::string::StringSliceAdditionalSpecFns;

verus! {

/// The parameters of one query: the type of each, and their values, each
/// behind its length, one after the other.
pub struct PostgresQueryParameters {
    pub types: Vec<u32>,
    pub buf: Vec<u8>,
}

impl PostgresQueryParameters {
    /// No parameters.
    pub fn new() -> (r: Self)
        ensures
            r.types@ == Seq::<u32>::empty(),
            r.buf@ == Seq::<u8>::empty(),
    {
        PostgresQueryParameters { types: Vec::new(), buf: Vec::new() }
    }

    /// Adds one parameter of the given type: its value in binary, or
    /// nothing for NULL. The value is appended behind its length, as Bind
    /// carries it.
    ///
    /// A value whose length does not fit the four bytes of a length is not
    /// added, and the result is `false`.
    pub fn bind(&mut self, type_oid: u32, value: Option<&[u8]>) -> (added: bool)
        ensures
            added == match value {
                Some(v) => v@.len() <= MAX_FRAME_LENGTH,
                None => true,
            },
            added ==> final(self).types@ == old(self).types@.push(type_oid) && final(self).buf@
                == old(self).buf@ + column_wire(optional_slice(value)),
            !added ==> final(self).types@ == old(self).types@ && final(self).buf@ == old(
                self,
            ).buf@,
    {
        match value {
            Some(v) => {
                if v.len() > 0x7fff_ffff {
                    return false;
                }
                put_u32(&mut self.buf, v.len() as u32);
                put_bytes(&mut self.buf, v);
                assert(self.buf@ =~= old(self).buf@ + column_wire(Some(v@)));
            },
            None => {
                put_u32(&mut self.buf, 0xffff_ffffu32);
            },
        }
        self.types.push(type_oid);
        true
    }
}

/// The format code for binary values.
pub const FORMAT_BINARY: i16 = 1;

/// What is sent for one query: Parse for the unnamed statement, Bind to the
/// unnamed portal with parameters and results in binary, Execute with the
/// limit, and Sync.
pub open spec fn query_wire(query: Seq<u8>, types: Seq<u32>, values: Seq<u8>, limit: i32) -> Seq<
    u8,
> {
    frame(TAG_PARSE, parse_payload(Seq::<u8>::empty(), query, types)) + frame(
        TAG_BIND,
        bind_payload(
            Seq::<u8>::empty(),
            Seq::<u8>::empty(),
            seq![FORMAT_BINARY],
            types.len() as i16,
            values,
            seq![FORMAT_BINARY],
        ),
    ) + frame(TAG_EXECUTE, execute_payload(Seq::<u8>::empty(), limit)) + frame(
        TAG_SYNC,
        Seq::<u8>::empty(),
    )
}

/// Whether the wire can carry a query: the count of its parameters fits the
/// two bytes of a count, and the lengths of the Parse and of the Bind message
/// fit the four bytes of a length.
pub open spec fn query_fits(query: Seq<u8>, types: Seq<u32>, values: Seq<u8>) -> bool {
    &&& types.len() <= MAX_COUNT
    &&& query.len() + 4 * types.len() + 8 <= MAX_FRAME_LENGTH
    &&& values.len() + 16 <= MAX_FRAME_LENGTH
}

/// Queues the four messages of one query, in their order and with nothing
/// between or after them.
///
/// Where the wire cannot carry the query the result is `TooLarge` and nothing
/// is queued.
pub fn finish(
    conn: &mut PostgresRawConnection,
    query: &str,
    params: PostgresQueryParameters,
    limit: i32,
) -> (r: Result<(), Error>)
    ensures
        r is Ok <==> query_fits(query.spec_bytes(), params.types@, params.buf@),
        r is Ok ==> final(conn)@ == (ConnectionView {
            outgoing: old(conn)@.outgoing + query_wire(
                query.spec_bytes(),
                params.types@,
                params.buf@,
                limit,
            ),
            ..old(conn)@
        }),
        r is Err ==> r == Err::<(), Error>(Error::TooLarge) && final(conn)@ == old(conn)@,
{
    let count = params.types.len();
    let text = query.as_bytes().len();
    if count > MAX_COUNT || text > 0x7fff_ffff || params.buf.len() > 0x7fff_ffff - 16 {
        return Err(Error::TooLarge);
    }
    if text + 4 * count + 8 > 0x7fff_ffff {
        return Err(Error::TooLarge);
    }
    let unnamed = "";
    let mut binary: Vec<i16> = Vec::new();
    binary.push(FORMAT_BINARY);
    proof {
        reveal_strlit("");
        assert(unnamed.spec_bytes() =~= Seq::<u8>::empty());
        assert(binary@ =~= seq![FORMAT_BINARY]);
        lemma_be32_all_len(params.types@);
        lemma_be16_all_len(binary@);
    }
    let parse = Parse { portal: unnamed, query, param_types: params.types.as_slice() };
    let bind = Bind {
        portal: unnamed,
        statement: unnamed,
        formats: binary.as_slice(),
        values_len: count as i16,
        values: params.buf.as_slice(),
        result_formats: binary.as_slice(),
    };
    let execute = Execute { portal: unnamed, limit };
    conn.write(&parse);
    conn.write(&bind);
    conn.write(&execute);
    conn.write(&Sync);
    proof {
        assert(conn@.outgoing =~= old(conn)@.outgoing + query_wire(
            query.spec_bytes(),
            params.types@,
            params.buf@,
            limit,
        ));
    }
    Ok(())
}

/// What `finish` queues is what the four messages of a query are encoded to,
/// one after the other: Parse for the unnamed statement, Bind to the unnamed
/// portal with one binary format for the parameters and one for the results,
/// Execute of the unnamed portal, and Sync.
pub proof fn lemma_query_is_four_messages(parse: Parse, bind: Bind, execute: Execute)
    requires
        parse.portal.spec_bytes() == Seq::<u8>::empty(),
        bind.portal.spec_bytes() == Seq::<u8>::empty(),
        bind.statement.spec_bytes() == Seq::<u8>::empty(),
        execute.portal.spec_bytes() == Seq::<u8>::empty(),
        bind.formats@ == seq![FORMAT_BINARY],
        bind.result_formats@ == seq![FORMAT_BINARY],
        bind.values_len == parse.param_types@.len() as i16,
    ensures
        query_wire(parse.query.spec_bytes(), parse.param_types@, bind.values@, execute.limit)
            == parse.wire() + bind.wire() + execute.wire() + Sync.wire(),
{
}

/// The limit of rows changes one byte of what is queued for a query: with
/// the limits 0 and 1 the bytes have one length and differ in the last byte
/// of the Execute message alone, the sixth from the end, which is the limit.
pub proof fn lemma_limit_is_one_byte(query: Seq<u8>, types: Seq<u32>, values: Seq<u8>)
    ensures
        ({
            let all = query_wire(query, types, values, 0);
            let one = query_wire(query, types, values, 1);
            &&& all.len() == one.len()
            &&& all.len() >= 15
            &&& all[all.len() - 6] == 0u8
            &&& one[one.len() - 6] == 1u8
            &&& forall|i: int| 0 <= i < all.len() && i != all.len() - 6 ==> all[i] == one[i]
        }),
{
    let empty = Seq::<u8>::empty();
    let head = frame(TAG_PARSE, parse_payload(empty, query, types)) + frame(
        TAG_BIND,
        bind_payload(
            empty,
            empty,
            seq![FORMAT_BINARY],
            types.len() as i16,
            values,
            seq![FORMAT_BINARY],
        ),
    );
    let sync = frame(TAG_SYNC, empty);
    let none = frame(TAG_EXECUTE, execute_payload(empty, 0));
    let single = frame(TAG_EXECUTE, execute_payload(empty, 1));
    let all = query_wire(query, types, values, 0);
    let one = query_wire(query, types, values, 1);
    assert(be32(0u32) =~= seq![0u8, 0u8, 0u8, 0u8]);
    assert(be32(1u32) =~= seq![0u8, 0u8, 0u8, 1u8]);
    assert(be32(9u32).len() == 4);
    assert(be32(4u32).len() == 4);
    assert(sync.len() == 5);
    assert(none.len() == 10 && single.len() == 10);
    assert(none[9] == 0u8 && single[9] == 1u8);
    assert forall|i: int| 0 <= i < 9 implies none[i] == single[i] by {}
    assert(all =~= head + none + sync);
    assert(one =~= head + single + sync);
    assert forall|i: int| 0 <= i < all.len() && i != all.len() - 6 implies all[i] == one[i] by {
        if i >= head.len() && i < head.len() + 10 {
            assert(all[i] == none[i - head.len()]);
            assert(one[i] == single[i - head.len()]);
        }
    }
    assert(all[all.len() - 6] == none[9]);
    assert(one[one.len() - 6] == single[9]);
}

/// The number that the digits of `s` spell.
pub open spec fn decimal(s: Seq<u8>) -> nat
    decreases s.len(),
{
    if s.len() == 0 {
        0
    } else {
        decimal(s.drop_last()) * 10 + (s.last() - 48) as nat
    }
}

/// Whether every byte of `s` is a digit.
pub open spec fn all_digits(s: Seq<u8>) -> bool {
    forall|i: int| 0 <= i < s.len() ==> 48 <= #[trigger] s[i] <= 57
}

/// Where the last word of `s` starts: behind its last space, or at its
/// start where it has no space.
pub open spec fn last_word_start(s: Seq<u8>) -> int
    decreases s.len(),
{
    if s.len() == 0 {
        0
    } else if s.last() == 32u8 {
        s.len() as int
    } else {
        last_word_start(s.drop_last())
    }
}

/// The number of rows that the tag of a completed command reports: the
/// number that its last word spells, and 0 where that word is no number or
/// too large a one.
pub open spec fn affected_rows(tag: Seq<u8>) -> u64 {
    let word = tag.subrange(last_word_start(tag), tag.len() as int);
    if word.len() > 0 && all_digits(word) && decimal(word) <= u64::MAX {
        decimal(word) as u64
    } else {
        0
    }
}

/// A number does not get smaller when digits are appended to it.
pub proof fn lemma_decimal_grows(s: Seq<u8>, k: int)
    requires
        0 <= k <= s.len(),
        all_digits(s),
    ensures
        decimal(s.subrange(0, k)) <= decimal(s),
    decreases s.len() - k,
{
    if k == s.len() {
        assert(s.subrange(0, k) =~= s);
    } else {
        let longer = s.subrange(0, k + 1);
        assert(longer.drop_last() =~= s.subrange(0, k));
        assert(longer.last() == s[k]);
        lemma_decimal_grows(s, k + 1);
    }
}

/// Reads the number of rows from the tag of a completed command.
pub fn count_rows(tag: &[u8]) -> (r: u64)
    ensures
        r == affected_rows(tag@),
{
    let mut start: usize = tag.len();
    assert(tag@.subrange(0, start as int) =~= tag@);
    while start > 0 && tag[start - 1] != 32u8
        invariant
            0 <= start <= tag@.len(),
            last_word_start(tag@) == last_word_start(tag@.subrange(0, start as int)),
        decreases start,
    {
        assert(tag@.subrange(0, start as int).drop_last() =~= tag@.subrange(0, start - 1));
        start = start - 1;
    }
    assert(start == last_word_start(tag@));
    let ghost word = tag@.subrange(start as int, tag@.len() as int);
    let mut value: u64 = 0;
    let mut i: usize = start;
    while i < tag.len()
        invariant
            start <= i <= tag@.len(),
            start == last_word_start(tag@),
            word == tag@.subrange(start as int, tag@.len() as int),
            all_digits(word.subrange(0, i - start)),
            value == decimal(word.subrange(0, i - start)),
        decreases tag@.len() - i,
    {
        let d = tag[i];
        assert(word[i - start] == d);
        if d < 48 || d > 57 {
            return 0;
        }
        let digit: u64 = (d - 48) as u64;
        let ghost longer = word.subrange(0, i - start + 1);
        proof {
            assert(longer.drop_last() =~= word.subrange(0, i - start));
            assert(longer.last() == d);
            assert(all_digits(longer)) by {
                assert forall|j: int| 0 <= j < longer.len() implies 48 <= #[trigger] longer[j]
                    <= 57 by {
                    if j < i - start {
                        assert(word.subrange(0, i - start)[j] == longer[j]);
                    }
                }
            }
        }
        if value > (u64::MAX - digit) / 10 {
            proof {
                if all_digits(word) {
                    lemma_decimal_grows(word, i - start + 1);
                }
            }
            return 0;
        }
        value = value * 10 + digit;
        i = i + 1;
    }
    assert(word.subrange(0, word.len() as int) =~= word);
    value
}

/// How far the answer to a query has been read.
#[derive(Clone, Copy, Debug, PartialEq, Eq, Structural)]
pub enum Phase {
    /// Rows may still come.
    AwaitingRows,
    /// The command has ended or failed; what follows is passed over until the
    /// backend says that it is ready.
    AwaitingReady,
    /// The backend is ready for the next query.
    Done,
    /// The exchange broke off: the stream ended or lost its message
    /// boundaries. Nothing more is read for this query.
    Errored,
}

/// An error that the backend reported.
#[derive(Clone, Debug, PartialEq, Eq)]
pub struct Failure {
    pub severity: Vec<u8>,
    pub message: Vec<u8>,
}

/// A reported error, as contracts see it.
pub struct FailureView {
    pub severity: Seq<u8>,
    pub message: Seq<u8>,
}

impl View for Failure {
    type V = FailureView;

    open spec fn view(&self) -> FailureView {
        FailureView { severity: self.severity@, message: self.message@ }
    }
}

/// The state of one query between its messages.
#[derive(Debug, PartialEq, Eq)]
pub struct Query {
    pub phase: Phase,
    pub affected: u64,
    pub failure: Option<Failure>,
}

/// The state of a query, as contracts see it.
pub struct QueryView {
    pub phase: Phase,
    pub affected: u64,
    pub failure: Option<FailureView>,
}

impl View for Query {
    type V = QueryView;

    open spec fn view(&self) -> QueryView {
        QueryView {
            phase: self.phase,
            affected: self.affected,
            failure: match self.failure {
                Some(f) => Some(f@),
                None => None,
            },
        }
    }
}

/// What one message means for the caller of a query.
#[derive(Debug, PartialEq, Eq)]
pub enum Event {
    /// Nothing.
    Skip,
    /// A row of the result.
    Row(Row),
    /// The end of the exchange: the number of rows that the command
    /// reported, or the error.
    Complete(Result<u64, Error>),
}

/// An event, as contracts see it.
pub enum EventView {
    Skip,
    Row(Seq<Option<Seq<u8>>>),
    Complete(Result<u64, ErrorView>),
}

/// The result of a command, as contracts see it.
pub open spec fn count_view(r: Result<u64, Error>) -> Result<u64, ErrorView> {
    match r {
        Ok(n) => Ok(n),
        Err(e) => Err(e@),
    }
}

impl View for Event {
    type V = EventView;

    open spec fn view(&self) -> EventView {
        match *self {
            Event::Skip => EventView::Skip,
            Event::Row(row) => EventView::Row(row@),
            Event::Complete(r) => EventView::Complete(count_view(r)),
        }
    }
}

/// The state of a query that was just sent.
pub open spec fn fresh() -> QueryView {
    QueryView { phase: Phase::AwaitingRows, affected: 0, failure: None }
}

/// Whether nothing more is read for the query: the backend is ready, or the
/// exchange broke off.
pub open spec fn over(q: QueryView) -> bool {
    q.phase is Done || q.phase is Errored
}

/// The state of a query whose exchange broke off.
pub open spec fn broken(q: QueryView) -> QueryView {
    QueryView { phase: Phase::Errored, ..q }
}

/// The state after a message, and what the message means for the caller.
///
/// A row counts while rows are awaited. The end of the command sets the
/// number of rows. The first error report is kept, and ends the rows. When
/// the backend is ready the exchange is complete, with the error if one was
/// reported and with the number of rows if not. A message of the start-up
/// exchange has no place here and breaks the exchange off. Everything else is
/// passed over.
pub open spec fn step_of(q: QueryView, m: MessageView) -> (QueryView, EventView) {
    match m {
        MessageView::DataRow { row } => if q.phase is AwaitingRows {
            (q, EventView::Row(row))
        } else {
            (q, EventView::Skip)
        },
        MessageView::CommandComplete { tag } => if q.phase is AwaitingRows {
            (
                QueryView { phase: Phase::AwaitingReady, affected: affected_rows(tag), ..q },
                EventView::Skip,
            )
        } else {
            (q, EventView::Skip)
        },
        MessageView::Response { error, fields } => if error {
            (
                QueryView {
                    phase: Phase::AwaitingReady,
                    failure: if q.failure is None {
                        Some(
                            FailureView {
                                severity: field_or_empty(fields, FIELD_SEVERITY),
                                message: field_or_empty(fields, FIELD_MESSAGE),
                            },
                        )
                    } else {
                        q.failure
                    },
                    ..q
                },
                EventView::Skip,
            )
        } else {
            (q, EventView::Skip)
        },
        MessageView::ReadyForQuery { .. } => (
            QueryView { phase: Phase::Done, failure: None, ..q },
            EventView::Complete(
                match q.failure {
                    Some(f) => Err(
                        ErrorView::Backend { severity: f.severity, message: f.message },
                    ),
                    None => Ok(q.affected),
                },
            ),
        ),
        MessageView::Authentication { .. } => (
            broken(q),
            EventView::Complete(
                Err(
                    ErrorView::Protocol(
                        ProtocolError::UnexpectedMessage { tag: TAG_AUTHENTICATION },
                    ),
                ),
            ),
        ),
        MessageView::BackendKeyData { .. } => (
            broken(q),
            EventView::Complete(
                Err(
                    ErrorView::Protocol(
                        ProtocolError::UnexpectedMessage { tag: TAG_BACKEND_KEY_DATA },
                    ),
                ),
            ),
        ),
        _ => (q, EventView::Skip),
    }
}

impl Query {
    /// The state of a query that was just sent.
    pub fn new() -> (q: Self)
        ensures
            q@ == fresh(),
    {
        Query { phase: Phase::AwaitingRows, affected: 0, failure: None }
    }

    /// Whether nothing more is read for the query.
    pub fn is_over(&self) -> (r: bool)
        ensures
            r == over(self@),
    {
        match self.phase {
            Phase::Done => true,
            Phase::Errored => true,
            _ => false,
        }
    }

    /// Marks the exchange as broken off.
    pub fn fail(&mut self)
        ensures
            final(self)@ == broken(old(self)@),
    {
        self.phase = Phase::Errored;
    }

    /// Takes in one message of the answer.
    pub fn step(&mut self, message: Message) -> (event: Event)
        ensures
            (final(self)@, event@) == step_of(old(self)@, message@),
    {
        let awaiting_rows = match self.phase {
            Phase::AwaitingRows => true,
            _ => false,
        };
        match message {
            Message::DataRow { row } => {
                if awaiting_rows {
                    Event::Row(row)
                } else {
                    Event::Skip
                }
            },
            Message::CommandComplete { tag } => {
                if awaiting_rows {
                    self.affected = count_rows(tag.as_slice());
                    self.phase = Phase::AwaitingReady;
                }
                Event::Skip
            },
            Message::Response { error, fields } => {
                if error {
                    if self.failure.is_none() {
                        self.failure = Some(
                            Failure {
                                severity: find_field(&fields, FIELD_SEVERITY),
                                message: find_field(&fields, FIELD_MESSAGE),
                            },
                        );
                    }
                    self.phase = Phase::AwaitingReady;
                }
                Event::Skip
            },
            Message::ReadyForQuery { .. } => {
                self.phase = Phase::Done;
                match self.failure.take() {
                    Some(f) => Event::Complete(
                        Err(Error::Backend { severity: f.severity, message: f.message }),
                    ),
                    None => Event::Complete(Ok(self.affected)),
                }
            },
            Message::Authentication { .. } => {
                self.phase = Phase::Errored;
                Event::Complete(
                    Err(
                        Error::Protocol(
                            ProtocolError::UnexpectedMessage { tag: TAG_AUTHENTICATION },
                        ),
                    ),
                )
            },
            Message::BackendKeyData { .. } => {
                self.phase = Phase::Errored;
                Event::Complete(
                    Err(
                        Error::Protocol(
                            ProtocolError::UnexpectedMessage { tag: TAG_BACKEND_KEY_DATA },
                        ),
                    ),
                )
            },
            _ => Event::Skip,
        }
    }
}

} // verus!
