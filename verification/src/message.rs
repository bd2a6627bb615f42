//! The messages that a backend sends, their layout on the wire, and the
//! parser of their payloads.

use crate::error::ProtocolError;
use crate::wire::{
    be16, be32, copy_range, cstr, find_nul, frame, from_be16, from_be32, get_u16, get_u32,
    nul_free, nul_position, put_bytes, put_cstr, put_frame, put_u16, put_u32, put_u8, signed16,
    signed32, to_signed16, to_signed32, MAX_LENGTH,
};
use vstd::prelude::*;

verus! {

/// Tag of an authentication request.
pub const TAG_AUTHENTICATION: u8 = 82;

/// Tag of a run-time parameter report.
pub const TAG_PARAMETER_STATUS: u8 = 83;

/// Tag of the cancellation key data.
pub const TAG_BACKEND_KEY_DATA: u8 = 75;

/// Tag of the message that ends every exchange.
pub const TAG_READY_FOR_QUERY: u8 = 90;

/// Tag of an error report.
pub const TAG_ERROR_RESPONSE: u8 = 69;

/// Tag of a notice.
pub const TAG_NOTICE_RESPONSE: u8 = 78;

/// Tag of one row of a result.
pub const TAG_DATA_ROW: u8 = 68;

/// Tag of the message that ends a command.
pub const TAG_COMMAND_COMPLETE: u8 = 67;

/// The field of a response that holds its severity.
pub const FIELD_SEVERITY: u8 = 83;

/// The field of a response that holds its text.
pub const FIELD_MESSAGE: u8 = 77;

/// One field of an error report or notice.
#[derive(Clone, Debug, PartialEq, Eq)]
pub struct Field {
    pub kind: u8,
    pub value: Vec<u8>,
}

/// A field, as contracts see it.
pub struct FieldView {
    pub kind: u8,
    pub value: Seq<u8>,
}

impl View for Field {
    type V = FieldView;

    open spec fn view(&self) -> FieldView {
        FieldView { kind: self.kind, value: self.value@ }
    }
}

/// One row of a result: for each column its bytes, or nothing for NULL.
#[derive(Clone, Debug, PartialEq, Eq)]
pub struct Row {
    pub columns: Vec<Option<Vec<u8>>>,
}

/// A column, as contracts see it.
pub open spec fn column_view(c: Option<Vec<u8>>) -> Option<Seq<u8>> {
    match c {
        Some(v) => Some(v@),
        None => None,
    }
}

impl View for Row {
    type V = Seq<Option<Seq<u8>>>;

    open spec fn view(&self) -> Seq<Option<Seq<u8>>> {
        self.columns@.map_values(|c: Option<Vec<u8>>| column_view(c))
    }
}

/// The fields of a response, as contracts see them.
pub open spec fn fields_view(fields: Seq<Field>) -> Seq<FieldView> {
    fields.map_values(|f: Field| f@)
}

/// A message from the backend.
#[derive(Clone, Debug, PartialEq, Eq)]
pub enum Message {
    /// An authentication request: `method` 0 says that none is needed any
    /// more, 3 asks for a clear-text password; `data` is what follows it.
    Authentication { method: u32, data: Vec<u8> },
    /// A run-time parameter of the session and its value.
    ParameterStatus { name: Vec<u8>, value: Vec<u8> },
    /// The identifiers by which a running query can be cancelled.
    BackendKeyData { process_id: u32, secret_key: u32 },
    /// The backend is ready for the next command; `status` is the
    /// transaction status.
    ReadyForQuery { status: u8 },
    /// An error report, or a notice where `error` is false.
    Response { error: bool, fields: Vec<Field> },
    /// One row of a result.
    DataRow { row: Row },
    /// A command has ended; `tag` names it and counts its rows.
    CommandComplete { tag: Vec<u8> },
    /// Any other message, uninterpreted.
    Other { tag: u8, body: Vec<u8> },
}

/// A message, as contracts see it.
pub enum MessageView {
    Authentication { method: u32, data: Seq<u8> },
    ParameterStatus { name: Seq<u8>, value: Seq<u8> },
    BackendKeyData { process_id: u32, secret_key: u32 },
    ReadyForQuery { status: u8 },
    Response { error: bool, fields: Seq<FieldView> },
    DataRow { row: Seq<Option<Seq<u8>>> },
    CommandComplete { tag: Seq<u8> },
    Other { tag: u8, body: Seq<u8> },
}

impl View for Message {
    type V = MessageView;

    open spec fn view(&self) -> MessageView {
        match *self {
            Message::Authentication { method, data } => MessageView::Authentication {
                method,
                data: data@,
            },
            Message::ParameterStatus { name, value } => MessageView::ParameterStatus {
                name: name@,
                value: value@,
            },
            Message::BackendKeyData { process_id, secret_key } => MessageView::BackendKeyData {
                process_id,
                secret_key,
            },
            Message::ReadyForQuery { status } => MessageView::ReadyForQuery { status },
            Message::Response { error, fields } => MessageView::Response {
                error,
                fields: fields_view(fields@),
            },
            Message::DataRow { row } => MessageView::DataRow { row: row@ },
            Message::CommandComplete { tag } => MessageView::CommandComplete { tag: tag@ },
            Message::Other { tag, body } => MessageView::Other { tag, body: body@ },
        }
    }
}

/// Whether `tag` is one that the parser gives a meaning to.
pub open spec fn known_tag(tag: u8) -> bool {
    tag == TAG_AUTHENTICATION || tag == TAG_PARAMETER_STATUS || tag == TAG_BACKEND_KEY_DATA || tag
        == TAG_READY_FOR_QUERY || tag == TAG_ERROR_RESPONSE || tag == TAG_NOTICE_RESPONSE || tag
        == TAG_DATA_ROW || tag == TAG_COMMAND_COMPLETE
}

/// The tag byte under which a message travels.
pub open spec fn tag_of(m: MessageView) -> u8 {
    match m {
        MessageView::Authentication { .. } => TAG_AUTHENTICATION,
        MessageView::ParameterStatus { .. } => TAG_PARAMETER_STATUS,
        MessageView::BackendKeyData { .. } => TAG_BACKEND_KEY_DATA,
        MessageView::ReadyForQuery { .. } => TAG_READY_FOR_QUERY,
        MessageView::Response { error, .. } => if error {
            TAG_ERROR_RESPONSE
        } else {
            TAG_NOTICE_RESPONSE
        },
        MessageView::DataRow { .. } => TAG_DATA_ROW,
        MessageView::CommandComplete { .. } => TAG_COMMAND_COMPLETE,
        MessageView::Other { tag, .. } => tag,
    }
}

/// The fields of a response on the wire, without the byte that ends them:
/// for each its kind, then its value as a terminated string.
pub open spec fn fields_wire(fields: Seq<FieldView>) -> Seq<u8>
    decreases fields.len(),
{
    if fields.len() == 0 {
        Seq::<u8>::empty()
    } else {
        seq![fields[0].kind] + cstr(fields[0].value) + fields_wire(
            fields.subrange(1, fields.len() as int),
        )
    }
}

/// One column on the wire: its length and its bytes, or the length -1 alone
/// for NULL.
pub open spec fn column_wire(c: Option<Seq<u8>>) -> Seq<u8> {
    match c {
        Some(v) => be32(v.len() as u32) + v,
        None => be32(0xffff_ffffu32),
    }
}

/// The columns of a row on the wire, without their count.
pub open spec fn columns_wire(columns: Seq<Option<Seq<u8>>>) -> Seq<u8>
    decreases columns.len(),
{
    if columns.len() == 0 {
        Seq::<u8>::empty()
    } else {
        column_wire(columns[0]) + columns_wire(columns.subrange(1, columns.len() as int))
    }
}

/// The payload of a message: what follows its tag and length.
pub open spec fn body_of(m: MessageView) -> Seq<u8> {
    match m {
        MessageView::Authentication { method, data } => be32(method) + data,
        MessageView::ParameterStatus { name, value } => cstr(name) + cstr(value),
        MessageView::BackendKeyData { process_id, secret_key } => be32(process_id) + be32(
            secret_key,
        ),
        MessageView::ReadyForQuery { status } => seq![status],
        MessageView::Response { fields, .. } => fields_wire(fields).push(0u8),
        MessageView::DataRow { row } => be16(row.len() as u16) + columns_wire(row),
        MessageView::CommandComplete { tag } => cstr(tag),
        MessageView::Other { body, .. } => body,
    }
}

/// A message as it travels.
pub open spec fn wire_of(m: MessageView) -> Seq<u8> {
    frame(tag_of(m), body_of(m))
}

/// Every field has a kind other than zero and a value without a zero byte.
pub open spec fn fields_well_formed(fields: Seq<FieldView>) -> bool {
    forall|i: int|
        0 <= i < fields.len() ==> (#[trigger] fields[i]).kind != 0u8 && nul_free(fields[i].value)
}

/// A message that can be written so that the parser finds it again: its
/// strings hold no zero byte, its counts and lengths fit their fields, and an
/// uninterpreted message does not bear a tag that has a meaning.
pub open spec fn well_formed(m: MessageView) -> bool {
    &&& body_of(m).len() + 4 <= MAX_LENGTH
    &&& match m {
        MessageView::ParameterStatus { name, value } => nul_free(name) && nul_free(value),
        MessageView::Response { fields, .. } => fields_well_formed(fields),
        MessageView::DataRow { row } => row.len() <= 32767,
        MessageView::CommandComplete { tag } => nul_free(tag),
        MessageView::Other { tag, .. } => !known_tag(tag),
        _ => true,
    }
}

/// `first`, then what `rest` holds; nothing where `rest` is nothing.
pub open spec fn prepend<T>(first: Seq<T>, rest: Option<Seq<T>>) -> Option<Seq<T>> {
    match rest {
        Some(r) => Some(first + r),
        None => None,
    }
}

/// The fields that start at `at` and end with a zero byte at the very end of
/// `b`; nothing where `b` has no such layout.
pub open spec fn parse_fields(b: Seq<u8>, at: int) -> Option<Seq<FieldView>>
    decreases b.len() - at,
{
    if at < 0 || at >= b.len() {
        None
    } else if b[at] == 0u8 {
        if at + 1 == b.len() {
            Some(Seq::<FieldView>::empty())
        } else {
            None
        }
    } else {
        let end = nul_position(b, at + 1);
        if at < end < b.len() {
            prepend(
                seq![FieldView { kind: b[at], value: b.subrange(at + 1, end) }],
                parse_fields(b, end + 1),
            )
        } else {
            None
        }
    }
}

/// The `n` columns that start at `at` and end at the very end of `b`; nothing
/// where `b` has no such layout.
pub open spec fn parse_columns(b: Seq<u8>, at: int, n: nat) -> Option<Seq<Option<Seq<u8>>>>
    decreases n,
{
    if n == 0 {
        if at == b.len() {
            Some(Seq::<Option<Seq<u8>>>::empty())
        } else {
            None
        }
    } else if at < 0 || at + 4 > b.len() {
        None
    } else {
        let length = signed32(from_be32(b, at));
        if length == -1 {
            prepend(seq![None::<Seq<u8>>], parse_columns(b, at + 4, (n - 1) as nat))
        } else if 0 <= length && at + 4 + length <= b.len() {
            prepend(
                seq![Some(b.subrange(at + 4, at + 4 + length))],
                parse_columns(b, at + 4 + length, (n - 1) as nat),
            )
        } else {
            None
        }
    }
}

/// The message that a payload under a tag stands for; nothing where the
/// payload does not have the layout of its tag.
pub open spec fn parse(tag: u8, body: Seq<u8>) -> Option<MessageView> {
    if tag == TAG_AUTHENTICATION {
        if body.len() >= 4 {
            Some(
                MessageView::Authentication {
                    method: from_be32(body, 0),
                    data: body.subrange(4, body.len() as int),
                },
            )
        } else {
            None
        }
    } else if tag == TAG_PARAMETER_STATUS {
        let p = nul_position(body, 0);
        let q = nul_position(body, p + 1);
        if p < body.len() && q + 1 == body.len() {
            Some(
                MessageView::ParameterStatus {
                    name: body.subrange(0, p),
                    value: body.subrange(p + 1, q),
                },
            )
        } else {
            None
        }
    } else if tag == TAG_BACKEND_KEY_DATA {
        if body.len() == 8 {
            Some(
                MessageView::BackendKeyData {
                    process_id: from_be32(body, 0),
                    secret_key: from_be32(body, 4),
                },
            )
        } else {
            None
        }
    } else if tag == TAG_READY_FOR_QUERY {
        if body.len() == 1 {
            Some(MessageView::ReadyForQuery { status: body[0] })
        } else {
            None
        }
    } else if tag == TAG_ERROR_RESPONSE || tag == TAG_NOTICE_RESPONSE {
        match parse_fields(body, 0) {
            Some(fields) => Some(
                MessageView::Response { error: tag == TAG_ERROR_RESPONSE, fields },
            ),
            None => None,
        }
    } else if tag == TAG_DATA_ROW {
        if body.len() >= 2 && signed16(from_be16(body, 0)) >= 0 {
            match parse_columns(body, 2, signed16(from_be16(body, 0)) as nat) {
                Some(row) => Some(MessageView::DataRow { row }),
                None => None,
            }
        } else {
            None
        }
    } else if tag == TAG_COMMAND_COMPLETE {
        let p = nul_position(body, 0);
        if p + 1 == body.len() {
            Some(MessageView::CommandComplete { tag: body.subrange(0, p) })
        } else {
            None
        }
    } else {
        Some(MessageView::Other { tag, body })
    }
}

/// Reads the fields of a response.
fn read_fields(body: &[u8]) -> (r: Option<Vec<Field>>)
    ensures
        match parse_fields(body@, 0) {
            Some(fields) => r matches Some(v) && fields_view(v@) == fields,
            None => r is None,
        },
{
    let mut fields: Vec<Field> = Vec::new();
    let mut at: usize = 0;
    loop
        invariant
            at <= body@.len(),
            parse_fields(body@, 0) == prepend(fields_view(fields@), parse_fields(body@, at as int)),
        decreases body@.len() - at,
    {
        if at >= body.len() {
            return None;
        }
        let kind = body[at];
        if kind == 0u8 {
            if at + 1 == body.len() {
                assert(fields_view(fields@) + Seq::<FieldView>::empty() =~= fields_view(fields@));
                return Some(fields);
            }
            return None;
        }
        let end = find_nul(body, at + 1);
        if end >= body.len() {
            return None;
        }
        let value = copy_range(body, at + 1, end);
        let ghost before = fields@;
        let ghost rest = parse_fields(body@, end + 1);
        fields.push(Field { kind, value });
        proof {
            let one = seq![FieldView { kind, value: body@.subrange(at + 1, end as int) }];
            assert(fields_view(fields@) =~= fields_view(before) + one);
            if let Some(tail) = rest {
                assert(fields_view(before) + (one + tail) =~= fields_view(fields@) + tail);
            }
        }
        at = end + 1;
    }
}

/// Reads the `n` columns of a row, which start at the third byte.
fn read_columns(body: &[u8], n: u16) -> (r: Option<Row>)
    requires
        body@.len() >= 2,
    ensures
        match parse_columns(body@, 2, n as nat) {
            Some(row) => r matches Some(v) && v@ == row,
            None => r is None,
        },
{
    let mut columns: Vec<Option<Vec<u8>>> = Vec::new();
    let mut at: usize = 2;
    let mut left: u16 = n;
    while left > 0
        invariant
            2 <= at <= body@.len(),
            parse_columns(body@, 2, n as nat) == prepend(
                columns@.map_values(|c: Option<Vec<u8>>| column_view(c)),
                parse_columns(body@, at as int, left as nat),
            ),
        decreases left,
    {
        if body.len() - at < 4 {
            return None;
        }
        let length = to_signed32(get_u32(body, at));
        let ghost before = columns@.map_values(|c: Option<Vec<u8>>| column_view(c));
        let ghost rest;
        let ghost one;
        if length == -1 {
            columns.push(None);
            proof {
                one = seq![None::<Seq<u8>>];
                rest = parse_columns(body@, at + 4, (left - 1) as nat);
            }
            at = at + 4;
        } else if length >= 0 && length as usize <= body.len() - at - 4 {
            let value = copy_range(body, at + 4, at + 4 + length as usize);
            columns.push(Some(value));
            proof {
                one = seq![Some(body@.subrange(at + 4, at + 4 + length))];
                rest = parse_columns(body@, at + 4 + length, (left - 1) as nat);
            }
            at = at + 4 + length as usize;
        } else {
            return None;
        }
        proof {
            let now = columns@.map_values(|c: Option<Vec<u8>>| column_view(c));
            assert(now =~= before + one);
            if let Some(tail) = rest {
                assert(before + (one + tail) =~= now + tail);
            }
        }
        left = left - 1;
    }
    if at == body.len() {
        let row = Row { columns };
        assert(row@ + Seq::<Option<Seq<u8>>>::empty() =~= row@);
        Some(row)
    } else {
        None
    }
}

/// Turns the payload of one message into the message.
///
/// The result is the message that `parse` gives, and `MalformedBody` exactly
/// where `parse` gives none.
pub fn parse_message(tag: u8, body: &[u8]) -> (r: Result<Message, ProtocolError>)
    ensures
        match parse(tag, body@) {
            Some(m) => r matches Ok(v) && v@ == m,
            None => r == Err::<Message, ProtocolError>(ProtocolError::MalformedBody { tag }),
        },
{
    let len = body.len();
    let malformed = Err(ProtocolError::MalformedBody { tag });
    if tag == TAG_AUTHENTICATION {
        if len < 4 {
            return malformed;
        }
        Ok(Message::Authentication { method: get_u32(body, 0), data: copy_range(body, 4, len) })
    } else if tag == TAG_PARAMETER_STATUS {
        let p = find_nul(body, 0);
        if p >= len {
            return malformed;
        }
        let q = find_nul(body, p + 1);
        if q >= len || q + 1 != len {
            return malformed;
        }
        Ok(
            Message::ParameterStatus {
                name: copy_range(body, 0, p),
                value: copy_range(body, p + 1, q),
            },
        )
    } else if tag == TAG_BACKEND_KEY_DATA {
        if len != 8 {
            return malformed;
        }
        Ok(Message::BackendKeyData { process_id: get_u32(body, 0), secret_key: get_u32(body, 4) })
    } else if tag == TAG_READY_FOR_QUERY {
        if len != 1 {
            return malformed;
        }
        Ok(Message::ReadyForQuery { status: body[0] })
    } else if tag == TAG_ERROR_RESPONSE || tag == TAG_NOTICE_RESPONSE {
        match read_fields(body) {
            Some(fields) => Ok(Message::Response { error: tag == TAG_ERROR_RESPONSE, fields }),
            None => malformed,
        }
    } else if tag == TAG_DATA_ROW {
        if len < 2 {
            return malformed;
        }
        let n = to_signed16(get_u16(body, 0));
        if n < 0 {
            return malformed;
        }
        match read_columns(body, n as u16) {
            Some(row) => Ok(Message::DataRow { row }),
            None => malformed,
        }
    } else if tag == TAG_COMMAND_COMPLETE {
        let p = find_nul(body, 0);
        if p >= len || p + 1 != len {
            return malformed;
        }
        Ok(Message::CommandComplete { tag: copy_range(body, 0, p) })
    } else {
        let copy = copy_range(body, 0, len);
        assert(copy@ =~= body@);
        Ok(Message::Other { tag, body: copy })
    }
}

/// The value of the first field of the given kind.
pub open spec fn field_of(fields: Seq<FieldView>, kind: u8) -> Option<Seq<u8>>
    decreases fields.len(),
{
    if fields.len() == 0 {
        None
    } else if fields[0].kind == kind {
        Some(fields[0].value)
    } else {
        field_of(fields.subrange(1, fields.len() as int), kind)
    }
}

/// The value of the first field of the given kind, or no bytes where there
/// is no such field.
pub open spec fn field_or_empty(fields: Seq<FieldView>, kind: u8) -> Seq<u8> {
    match field_of(fields, kind) {
        Some(v) => v,
        None => Seq::<u8>::empty(),
    }
}

/// Copies the value of the first field of the given kind; where there is no
/// such field, the result is empty.
pub fn find_field(fields: &Vec<Field>, kind: u8) -> (r: Vec<u8>)
    ensures
        r@ == field_or_empty(fields_view(fields@), kind),
{
    let ghost all = fields_view(fields@);
    let mut i: usize = 0;
    assert(all.subrange(0, all.len() as int) =~= all);
    while i < fields.len()
        invariant
            0 <= i <= fields@.len(),
            all == fields_view(fields@),
            field_of(all, kind) == field_of(all.subrange(i as int, all.len() as int), kind),
        decreases fields@.len() - i,
    {
        let ghost here = all.subrange(i as int, all.len() as int);
        assert(here[0] == fields@[i as int]@);
        if fields[i].kind == kind {
            let value = &fields[i].value;
            let copy = copy_range(value.as_slice(), 0, value.len());
            assert(copy@ =~= value@);
            return copy;
        }
        assert(here.subrange(1, here.len() as int) =~= all.subrange(i + 1, all.len() as int));
        i = i + 1;
    }
    Vec::new()
}

/// What was written at `at` as two parts up to the end of `b` is found
/// there part by part.
pub proof fn lemma_written(b: Seq<u8>, at: int, first: Seq<u8>, rest: Seq<u8>)
    requires
        0 <= at <= b.len(),
        b.subrange(at, b.len() as int) == first + rest,
    ensures
        at + first.len() + rest.len() == b.len(),
        b.subrange(at, at + first.len()) == first,
        b.subrange(at + first.len(), b.len() as int) == rest,
        forall|i: int| 0 <= i < first.len() ==> b[at + i] == first[i],
{
    let w = b.subrange(at, b.len() as int);
    assert(w.len() == first.len() + rest.len());
    assert forall|i: int| 0 <= i < first.len() implies b[at + i] == first[i] by {
        assert(w[i] == b[at + i]);
    }
    assert forall|i: int| 0 <= i < rest.len() implies b[at + first.len() + i] == rest[i] by {
        assert(w[first.len() + i] == b[at + first.len() + i]);
    }
    assert(b.subrange(at, at + first.len()) =~= first);
    assert(b.subrange(at + first.len(), b.len() as int) =~= rest);
}

/// Appending a field to a list appends its bytes to the list's bytes.
pub proof fn lemma_fields_wire_push(fields: Seq<FieldView>, last: FieldView)
    ensures
        fields_wire(fields.push(last)) == fields_wire(fields) + seq![last.kind] + cstr(last.value),
    decreases fields.len(),
{
    let all = fields.push(last);
    let all_tail = all.subrange(1, all.len() as int);
    assert(fields_wire(all) == seq![all[0].kind] + cstr(all[0].value) + fields_wire(all_tail));
    if fields.len() == 0 {
        assert(all_tail =~= Seq::<FieldView>::empty());
        assert(fields_wire(all_tail) =~= Seq::<u8>::empty());
        assert(fields_wire(fields) =~= Seq::<u8>::empty());
        assert(fields_wire(all) =~= fields_wire(fields) + seq![last.kind] + cstr(last.value));
    } else {
        let tail = fields.subrange(1, fields.len() as int);
        assert(all_tail =~= tail.push(last));
        lemma_fields_wire_push(tail, last);
        assert(fields_wire(fields) == seq![fields[0].kind] + cstr(fields[0].value) + fields_wire(
            tail,
        ));
        assert(fields_wire(all) =~= fields_wire(fields) + seq![last.kind] + cstr(last.value));
    }
}

/// Appending a column to a row appends its bytes to the row's bytes.
pub proof fn lemma_columns_wire_push(columns: Seq<Option<Seq<u8>>>, last: Option<Seq<u8>>)
    ensures
        columns_wire(columns.push(last)) == columns_wire(columns) + column_wire(last),
    decreases columns.len(),
{
    let all = columns.push(last);
    let all_tail = all.subrange(1, all.len() as int);
    assert(columns_wire(all) == column_wire(all[0]) + columns_wire(all_tail));
    if columns.len() == 0 {
        assert(all_tail =~= Seq::<Option<Seq<u8>>>::empty());
        assert(columns_wire(all_tail) =~= Seq::<u8>::empty());
        assert(columns_wire(columns) =~= Seq::<u8>::empty());
        assert(columns_wire(all) =~= columns_wire(columns) + column_wire(last));
    } else {
        let tail = columns.subrange(1, columns.len() as int);
        assert(all_tail =~= tail.push(last));
        lemma_columns_wire_push(tail, last);
        assert(columns_wire(columns) == column_wire(columns[0]) + columns_wire(tail));
        assert(columns_wire(all) =~= columns_wire(columns) + column_wire(last));
    }
}

/// Well-formed fields that were written at `at`, with the zero byte that ends
/// them at the end of `b`, are read back as they were.
pub proof fn lemma_parse_fields(b: Seq<u8>, at: int, fields: Seq<FieldView>)
    requires
        0 <= at <= b.len(),
        b.subrange(at, b.len() as int) == fields_wire(fields).push(0u8),
        fields_well_formed(fields),
    ensures
        parse_fields(b, at) == Some(fields),
    decreases fields.len(),
{
    let written = b.subrange(at, b.len() as int);
    if fields.len() == 0 {
        assert(fields =~= Seq::<FieldView>::empty());
        assert(fields_wire(fields) =~= Seq::<u8>::empty());
        assert(written =~= seq![0u8] + Seq::<u8>::empty());
        lemma_written(b, at, seq![0u8], Seq::<u8>::empty());
        assert(b[at + 0] == seq![0u8][0]);
    } else {
        let head = fields[0];
        let tail = fields.subrange(1, fields.len() as int);
        let rest = fields_wire(tail).push(0u8);
        let end = at + 1 + head.value.len();
        assert(fields_wire(fields) == seq![head.kind] + cstr(head.value) + fields_wire(tail));
        assert(written =~= seq![head.kind] + (cstr(head.value) + rest));
        lemma_written(b, at, seq![head.kind], cstr(head.value) + rest);
        assert(b[at + 0] == seq![head.kind][0]);
        lemma_written(b, at + 1, cstr(head.value), rest);
        crate::wire::lemma_nul_position_of_cstr(b, at + 1, head.value);
        assert(b.subrange(at + 1, end) =~= head.value) by {
            assert forall|i: int| 0 <= i < head.value.len() implies b[at + 1 + i]
                == head.value[i] by {
                assert(cstr(head.value)[i] == head.value[i]);
            }
        }
        assert forall|i: int| 0 <= i < tail.len() implies (#[trigger] tail[i]).kind != 0u8
            && nul_free(tail[i].value) by {
            assert(tail[i] == fields[i + 1]);
        }
        lemma_parse_fields(b, end + 1, tail);
        assert(seq![FieldView { kind: b[at], value: b.subrange(at + 1, end) }] + tail =~= fields);
    }
}

/// Columns that were written at `at` and end where `b` ends are read back as
/// they were.
pub proof fn lemma_parse_columns(b: Seq<u8>, at: int, columns: Seq<Option<Seq<u8>>>)
    requires
        0 <= at <= b.len() <= MAX_LENGTH,
        b.subrange(at, b.len() as int) == columns_wire(columns),
    ensures
        parse_columns(b, at, columns.len()) == Some(columns),
    decreases columns.len(),
{
    let written = b.subrange(at, b.len() as int);
    if columns.len() == 0 {
        assert(columns =~= Seq::<Option<Seq<u8>>>::empty());
        assert(columns_wire(columns) =~= Seq::<u8>::empty());
        assert(written.len() == 0);
    } else {
        let tail = columns.subrange(1, columns.len() as int);
        let rest = columns_wire(tail);
        assert(columns_wire(columns) == column_wire(columns[0]) + rest);
        match columns[0] {
            Some(v) => {
                let n = v.len() as int;
                assert(be32(n as u32).len() == 4);
                assert(written =~= be32(n as u32) + (v + rest));
                lemma_written(b, at, be32(n as u32), v + rest);
                crate::wire::lemma_be32_round_trip(n as u32, b, at);
                lemma_written(b, at + 4, v, rest);
                lemma_parse_columns(b, at + 4 + n, tail);
                assert(seq![Some(v)] + tail =~= columns);
            },
            None => {
                assert(be32(0xffff_ffffu32).len() == 4);
                lemma_written(b, at, be32(0xffff_ffffu32), rest);
                crate::wire::lemma_be32_round_trip(0xffff_ffffu32, b, at);
                lemma_parse_columns(b, at + 4, tail);
                assert(seq![None::<Seq<u8>>] + tail =~= columns);
            },
        }
    }
}

/// The parser reads the payload of a well-formed message back as that
/// message.
pub proof fn lemma_parse_body(m: MessageView)
    requires
        well_formed(m),
    ensures
        parse(tag_of(m), body_of(m)) == Some(m),
{
    let body = body_of(m);
    match m {
        MessageView::Authentication { method, data } => {
            assert(body.subrange(0, 4) =~= be32(method));
            crate::wire::lemma_be32_round_trip(method, body, 0);
            assert(body.subrange(4, body.len() as int) =~= data);
        },
        MessageView::ParameterStatus { name, value } => {
            let p = name.len() as int;
            let q = p + 1 + value.len();
            assert(body.subrange(0, p + 1) =~= cstr(name));
            crate::wire::lemma_nul_position_of_cstr(body, 0, name);
            assert(body.subrange(p + 1, q + 1) =~= cstr(value));
            crate::wire::lemma_nul_position_of_cstr(body, p + 1, value);
            assert(body.subrange(0, p) =~= name);
            assert(body.subrange(p + 1, q) =~= value);
        },
        MessageView::BackendKeyData { process_id, secret_key } => {
            assert(body.subrange(0, 4) =~= be32(process_id));
            assert(body.subrange(4, 8) =~= be32(secret_key));
            crate::wire::lemma_be32_round_trip(process_id, body, 0);
            crate::wire::lemma_be32_round_trip(secret_key, body, 4);
        },
        MessageView::ReadyForQuery { status } => {},
        MessageView::Response { error, fields } => {
            assert(body.subrange(0, body.len() as int) =~= body);
            lemma_parse_fields(body, 0, fields);
        },
        MessageView::DataRow { row } => {
            let n = row.len() as u16;
            assert(body.subrange(0, 2) =~= be16(n));
            crate::wire::lemma_be16_round_trip(n, body, 0);
            assert(body.subrange(2, body.len() as int) =~= columns_wire(row));
            lemma_parse_columns(body, 2, row);
        },
        MessageView::CommandComplete { tag } => {
            let p = tag.len() as int;
            assert(body.subrange(0, p + 1) =~= cstr(tag));
            crate::wire::lemma_nul_position_of_cstr(body, 0, tag);
            assert(body.subrange(0, p) =~= tag);
        },
        MessageView::Other { tag, body } => {},
    }
}

impl Message {
    /// Writes the payload of the message.
    fn encode_body(&self, body: &mut Vec<u8>)
        ensures
            final(body)@ == old(body)@ + body_of(self@),
    {
        match self {
            Message::Authentication { method, data } => {
                put_u32(body, *method);
                put_bytes(body, data.as_slice());
                assert(body@ =~= old(body)@ + body_of(self@));
            },
            Message::ParameterStatus { name, value } => {
                put_cstr(body, name.as_slice());
                put_cstr(body, value.as_slice());
                assert(body@ =~= old(body)@ + body_of(self@));
            },
            Message::BackendKeyData { process_id, secret_key } => {
                put_u32(body, *process_id);
                put_u32(body, *secret_key);
                assert(body@ =~= old(body)@ + body_of(self@));
            },
            Message::ReadyForQuery { status } => {
                put_u8(body, *status);
                assert(body@ =~= old(body)@ + body_of(self@));
            },
            Message::Response { error, fields } => {
                let mut i: usize = 0;
                while i < fields.len()
                    invariant
                        0 <= i <= fields@.len(),
                        body@ == old(body)@ + fields_wire(
                            fields_view(fields@).subrange(0, i as int),
                        ),
                    decreases fields@.len() - i,
                {
                    let ghost done = fields_view(fields@).subrange(0, i as int);
                    put_u8(body, fields[i].kind);
                    put_cstr(body, fields[i].value.as_slice());
                    proof {
                        lemma_fields_wire_push(done, fields@[i as int]@);
                        assert(fields_view(fields@).subrange(0, i + 1) =~= done.push(
                            fields@[i as int]@,
                        ));
                        assert(body@ =~= old(body)@ + fields_wire(done.push(fields@[i as int]@)));
                    }
                    i = i + 1;
                }
                put_u8(body, 0u8);
                proof {
                    let all = fields_view(fields@);
                    assert(all.subrange(0, all.len() as int) =~= all);
                    assert(body@ =~= old(body)@ + body_of(self@));
                }
            },
            Message::DataRow { row } => {
                put_u16(body, row.columns.len() as u16);
                let mut i: usize = 0;
                while i < row.columns.len()
                    invariant
                        0 <= i <= row.columns@.len(),
                        body@ == old(body)@ + be16(row.columns@.len() as u16) + columns_wire(
                            row@.subrange(0, i as int),
                        ),
                    decreases row.columns@.len() - i,
                {
                    let ghost done = row@.subrange(0, i as int);
                    let ghost before = body@;
                    match &row.columns[i] {
                        Some(v) => {
                            put_u32(body, v.len() as u32);
                            put_bytes(body, v.as_slice());
                            assert(body@ =~= before + column_wire(row@[i as int]));
                        },
                        None => {
                            put_u32(body, 0xffff_ffffu32);
                        },
                    }
                    proof {
                        lemma_columns_wire_push(done, row@[i as int]);
                        assert(row@.subrange(0, i + 1) =~= done.push(row@[i as int]));
                        assert(body@ =~= old(body)@ + be16(row.columns@.len() as u16)
                            + columns_wire(done.push(row@[i as int])));
                    }
                    i = i + 1;
                }
                proof {
                    assert(row@.subrange(0, row@.len() as int) =~= row@);
                }
            },
            Message::CommandComplete { tag } => {
                put_cstr(body, tag.as_slice());
            },
            Message::Other { tag, body: bytes } => {
                put_bytes(body, bytes.as_slice());
            },
        }
    }

    /// The tag byte under which the message travels.
    pub fn tag(&self) -> (r: u8)
        ensures
            r == tag_of(self@),
    {
        match self {
            Message::Authentication { .. } => TAG_AUTHENTICATION,
            Message::ParameterStatus { .. } => TAG_PARAMETER_STATUS,
            Message::BackendKeyData { .. } => TAG_BACKEND_KEY_DATA,
            Message::ReadyForQuery { .. } => TAG_READY_FOR_QUERY,
            Message::Response { error, .. } => if *error {
                TAG_ERROR_RESPONSE
            } else {
                TAG_NOTICE_RESPONSE
            },
            Message::DataRow { .. } => TAG_DATA_ROW,
            Message::CommandComplete { .. } => TAG_COMMAND_COMPLETE,
            Message::Other { tag, .. } => *tag,
        }
    }

    /// Appends the message to `buf` as it travels: tag, length, payload.
    ///
    /// Where the message would be longer than the decoder accepts, nothing is
    /// written and the result is `false`.
    pub fn encode(&self, buf: &mut Vec<u8>) -> (written: bool)
        ensures
            written == (body_of(self@).len() + 4 <= MAX_LENGTH),
            written ==> final(buf)@ == old(buf)@ + wire_of(self@),
            !written ==> final(buf)@ == old(buf)@,
    {
        let mut body: Vec<u8> = Vec::new();
        self.encode_body(&mut body);
        assert(body@ =~= body_of(self@));
        if body.len() > 0x0fff_fffb {
            return false;
        }
        put_frame(buf, self.tag(), body.as_slice());
        true
    }
}

} // verus!
