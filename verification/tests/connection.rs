use pg_connection::connection::{is_absorbed, PostgresRawConnection, Received};
use pg_connection::error::{Error, ProtocolError};
use pg_connection::frontend::{Execute, Sync, Terminate};
use pg_connection::message::{Field, Message, Row};

fn sent(conn: &mut PostgresRawConnection) -> Vec<u8> {
    let bytes = conn.unsent().to_vec();
    conn.flush(true);
    bytes
}

fn wire_of_all(messages: &[Message]) -> Vec<u8> {
    let mut out = Vec::new();
    for message in messages {
        assert!(message.encode(&mut out));
    }
    out
}

fn notice() -> Message {
    Message::Response {
        error: false,
        fields: vec![Field { kind: b'S', value: b"NOTICE".to_vec() }],
    }
}

fn failure() -> Message {
    Message::Response {
        error: true,
        fields: vec![
            Field { kind: b'S', value: b"ERROR".to_vec() },
            Field { kind: b'M', value: b"division by zero".to_vec() },
        ],
    }
}

#[test]
fn a_new_connection_has_nothing_to_send_or_receive() {
    let mut conn = PostgresRawConnection::new();
    assert!(!conn.has_unsent());
    assert!(!conn.is_closed());
    assert_eq!(conn.process_id(), 0);
    assert_eq!(conn.secret_key(), 0);
    assert_eq!(conn.room(), 0x1000_0000);
    assert_eq!(sent(&mut conn), Vec::<u8>::new());
    assert_eq!(conn.receive(), Ok(Received::Pending));
}

#[test]
fn write_queues_and_flush_hands_out_and_empties() {
    let mut conn = PostgresRawConnection::new();
    conn.write(&Execute { portal: "", limit: 0 });
    assert!(conn.has_unsent());
    conn.write(&Sync);
    assert!(conn.has_unsent());
    assert_eq!(sent(&mut conn), vec![69, 0, 0, 0, 9, 0, 0, 0, 0, 0, 83, 0, 0, 0, 4]);
    assert!(!conn.has_unsent());
    assert_eq!(sent(&mut conn), Vec::<u8>::new());
    conn.write(&Terminate);
    assert_eq!(sent(&mut conn), vec![88, 0, 0, 0, 4]);
}

#[test]
fn finalize_queues_terminate_behind_what_is_queued() {
    let mut conn = PostgresRawConnection::new();
    conn.finalize();
    assert_eq!(conn.unsent(), &[88, 0, 0, 0, 4][..]);
    let mut busy = PostgresRawConnection::new();
    busy.write(&Sync);
    busy.finalize();
    assert_eq!(busy.unsent(), &[83, 0, 0, 0, 4, 88, 0, 0, 0, 4][..]);
    assert_eq!(sent(&mut busy), vec![83, 0, 0, 0, 4, 88, 0, 0, 0, 4]);
    assert!(!busy.has_unsent());
}

#[test]
fn a_failed_write_leaves_the_queue_as_it_was() {
    let mut conn = PostgresRawConnection::new();
    conn.write(&Execute { portal: "", limit: 1 });
    conn.write(&Sync);
    let queued = vec![69, 0, 0, 0, 9, 0, 0, 0, 0, 1, 83, 0, 0, 0, 4];
    assert_eq!(conn.unsent(), &queued[..]);
    assert_eq!(conn.unsent(), &queued[..]);
    conn.flush(false);
    assert!(conn.has_unsent());
    assert_eq!(conn.unsent(), &queued[..]);
    conn.write(&Terminate);
    conn.flush(false);
    let mut all = queued.clone();
    all.extend_from_slice(&[88, 0, 0, 0, 4]);
    assert_eq!(conn.unsent(), &all[..]);
    conn.flush(true);
    assert!(!conn.has_unsent());
    assert_eq!(conn.unsent(), &[][..] as &[u8]);
    conn.flush(false);
    assert!(!conn.has_unsent());
}

#[test]
fn receive_passes_over_parameter_status_and_notices() {
    let row = Message::DataRow { row: Row { columns: vec![Some(vec![1])] } };
    let ready = Message::ReadyForQuery { status: b'I' };
    let bytes = wire_of_all(&[
        Message::ParameterStatus { name: b"a".to_vec(), value: b"b".to_vec() },
        notice(),
        row.clone(),
        notice(),
        Message::ParameterStatus { name: b"c".to_vec(), value: b"d".to_vec() },
        ready.clone(),
        notice(),
    ]);
    let mut conn = PostgresRawConnection::new();
    assert_eq!(conn.feed(&bytes), Ok(()));
    assert_eq!(conn.receive(), Ok(Received::Message(row)));
    assert_eq!(conn.receive(), Ok(Received::Message(ready)));
    assert_eq!(conn.receive(), Ok(Received::Pending));
    assert_eq!(conn.room(), 0x1000_0000);
}

#[test]
fn receive_shows_an_error_response() {
    let bytes = wire_of_all(&[notice(), failure()]);
    let mut conn = PostgresRawConnection::new();
    assert_eq!(conn.feed(&bytes), Ok(()));
    assert_eq!(conn.receive(), Ok(Received::Message(failure())));
    assert_eq!(conn.receive(), Ok(Received::Pending));
}

#[test]
fn is_absorbed_tells_what_the_connection_keeps_to_itself() {
    assert!(is_absorbed(&notice()));
    assert!(is_absorbed(&Message::ParameterStatus { name: vec![], value: vec![] }));
    assert!(!is_absorbed(&failure()));
    assert!(!is_absorbed(&Message::ReadyForQuery { status: b'I' }));
    assert!(!is_absorbed(&Message::DataRow { row: Row { columns: vec![] } }));
    assert!(!is_absorbed(&Message::CommandComplete { tag: vec![] }));
    assert!(!is_absorbed(&Message::Authentication { method: 0, data: vec![] }));
    assert!(!is_absorbed(&Message::BackendKeyData { process_id: 0, secret_key: 0 }));
    assert!(!is_absorbed(&Message::Other { tag: b'1', body: vec![] }));
}

#[test]
fn receive_after_a_read_of_no_bytes_is_closed_for_ever() {
    let ready = Message::ReadyForQuery { status: b'I' };
    let bytes = wire_of_all(&[ready.clone()]);
    let mut conn = PostgresRawConnection::new();
    assert_eq!(conn.feed(&bytes[..3]), Ok(()));
    assert_eq!(conn.receive(), Ok(Received::Pending));
    assert_eq!(conn.feed(&[]), Ok(()));
    assert!(conn.is_closed());
    for _ in 0..5 {
        assert_eq!(conn.receive(), Ok(Received::Closed));
    }
    assert_eq!(conn.feed(&bytes[3..]), Ok(()));
    assert_eq!(conn.room(), 0x1000_0000 - 3);
    for _ in 0..5 {
        assert_eq!(conn.receive(), Ok(Received::Closed));
    }
    assert!(conn.is_closed());
}

#[test]
fn receive_is_closed_at_once_even_with_whole_messages_buffered() {
    let bytes = wire_of_all(&[Message::ReadyForQuery { status: b'I' }]);
    let mut conn = PostgresRawConnection::new();
    assert_eq!(conn.feed(&bytes), Ok(()));
    assert_eq!(conn.feed(&[]), Ok(()));
    assert_eq!(conn.receive(), Ok(Received::Closed));
    assert_eq!(conn.receive(), Ok(Received::Closed));
}

#[test]
fn a_message_may_come_byte_by_byte() {
    let row = Message::DataRow { row: Row { columns: vec![Some(b"abc".to_vec()), None] } };
    let bytes = wire_of_all(&[row.clone()]);
    let mut conn = PostgresRawConnection::new();
    for (i, byte) in bytes.iter().enumerate() {
        assert_eq!(conn.receive(), Ok(Received::Pending));
        assert_eq!(conn.room(), 0x1000_0000 - i);
        assert_eq!(conn.feed(&[*byte]), Ok(()));
    }
    assert_eq!(conn.receive(), Ok(Received::Message(row)));
    assert_eq!(conn.receive(), Ok(Received::Pending));
    assert_eq!(conn.room(), 0x1000_0000);
}

#[test]
fn one_read_may_hold_several_messages_and_a_part() {
    let first = Message::CommandComplete { tag: b"SELECT 0".to_vec() };
    let second = Message::ReadyForQuery { status: b'I' };
    let third = Message::BackendKeyData { process_id: 1, secret_key: 2 };
    let mut bytes = wire_of_all(&[first.clone(), second.clone()]);
    let tail = wire_of_all(&[third.clone()]);
    bytes.extend_from_slice(&tail[..6]);
    let mut conn = PostgresRawConnection::new();
    assert_eq!(conn.feed(&bytes), Ok(()));
    assert_eq!(conn.receive(), Ok(Received::Message(first)));
    assert_eq!(conn.receive(), Ok(Received::Message(second)));
    assert_eq!(conn.receive(), Ok(Received::Pending));
    assert_eq!(conn.room(), 0x1000_0000 - 6);
    assert_eq!(conn.feed(&tail[6..]), Ok(()));
    assert_eq!(conn.receive(), Ok(Received::Message(third)));
}

#[test]
fn receive_reports_bytes_that_are_no_message() {
    let mut conn = PostgresRawConnection::new();
    assert_eq!(conn.feed(&[90, 0, 0, 0, 2, 0]), Ok(()));
    let short = Error::Protocol(ProtocolError::LengthTooShort { tag: 90, length: 2 });
    assert_eq!(conn.receive(), Err(short.clone()));
    assert_eq!(conn.receive(), Err(short));
    let mut long = PostgresRawConnection::new();
    assert_eq!(long.feed(&[90, 0x7f, 0, 0, 0]), Ok(()));
    assert_eq!(
        long.receive(),
        Err(Error::Protocol(ProtocolError::LengthTooLong { tag: 90, length: 0x7f00_0000 }))
    );
    let mut bad = PostgresRawConnection::new();
    assert_eq!(bad.feed(&[75, 0, 0, 0, 5, 1]), Ok(()));
    assert_eq!(bad.receive(), Err(Error::Protocol(ProtocolError::MalformedBody { tag: 75 })));
}

#[test]
fn feed_refuses_more_than_the_buffer_holds() {
    let mut conn = PostgresRawConnection::new();
    assert_eq!(conn.feed(&[68, 0, 0]), Ok(()));
    let large = vec![0u8; 0x1000_0000 - 2];
    assert_eq!(conn.feed(&large), Err(Error::Overflow));
    assert_eq!(conn.room(), 0x1000_0000 - 3);
    assert!(!conn.is_closed());
    assert_eq!(conn.receive(), Ok(Received::Pending));
}
