use bytes::BytesMut;
use pg_connection::codec::decode;
use pg_connection::error::ProtocolError;
use pg_connection::message::{find_field, parse_message, Field, Message, Row};

fn wire(message: &Message) -> Vec<u8> {
    let mut out = Vec::new();
    assert!(message.encode(&mut out));
    out
}

fn round_trip(message: Message) {
    let bytes = wire(&message);
    let mut buf = BytesMut::from(&bytes[..]);
    assert_eq!(decode(&mut buf), Ok(Some(message)));
    assert_eq!(buf.len(), 0);
}

fn sample_messages() -> Vec<Message> {
    vec![
        Message::Authentication { method: 0, data: vec![] },
        Message::Authentication { method: 5, data: vec![1, 2, 3, 4] },
        Message::ParameterStatus { name: b"server_version".to_vec(), value: b"12.1".to_vec() },
        Message::ParameterStatus { name: vec![], value: vec![] },
        Message::BackendKeyData { process_id: 0x0102_0304, secret_key: 0xfffe_fdfc },
        Message::ReadyForQuery { status: b'I' },
        Message::Response {
            error: true,
            fields: vec![
                Field { kind: b'S', value: b"ERROR".to_vec() },
                Field { kind: b'C', value: b"42601".to_vec() },
                Field { kind: b'M', value: b"syntax error".to_vec() },
            ],
        },
        Message::Response { error: false, fields: vec![] },
        Message::DataRow { row: Row { columns: vec![] } },
        Message::DataRow {
            row: Row { columns: vec![Some(vec![0, 0, 0, 1]), None, Some(vec![]), Some(b"x".to_vec())] },
        },
        Message::CommandComplete { tag: b"INSERT 0 5".to_vec() },
        Message::Other { tag: b'1', body: vec![] },
        Message::Other { tag: b't', body: vec![0, 1, 0, 0, 0, 23] },
    ]
}

#[test]
fn round_trip_authentication() {
    round_trip(Message::Authentication { method: 0, data: vec![] });
    round_trip(Message::Authentication { method: 3, data: vec![] });
    round_trip(Message::Authentication { method: 5, data: vec![9, 8, 7, 6] });
}

#[test]
fn round_trip_parameter_status() {
    round_trip(Message::ParameterStatus { name: b"client_encoding".to_vec(), value: b"UTF8".to_vec() });
    round_trip(Message::ParameterStatus { name: vec![], value: b"v".to_vec() });
}

#[test]
fn round_trip_backend_key_data() {
    round_trip(Message::BackendKeyData { process_id: 4242, secret_key: u32::MAX });
}

#[test]
fn round_trip_ready_for_query() {
    round_trip(Message::ReadyForQuery { status: b'T' });
}

#[test]
fn round_trip_response() {
    round_trip(Message::Response {
        error: true,
        fields: vec![
            Field { kind: b'S', value: b"FATAL".to_vec() },
            Field { kind: b'M', value: b"password authentication failed".to_vec() },
        ],
    });
    round_trip(Message::Response {
        error: false,
        fields: vec![Field { kind: b'M', value: vec![] }],
    });
}

#[test]
fn round_trip_data_row() {
    round_trip(Message::DataRow {
        row: Row { columns: vec![None, Some(vec![255; 300]), None, Some(vec![])] },
    });
}

#[test]
fn round_trip_command_complete() {
    round_trip(Message::CommandComplete { tag: b"SELECT 3".to_vec() });
}

#[test]
fn round_trip_other() {
    round_trip(Message::Other { tag: b'2', body: vec![] });
    round_trip(Message::Other { tag: b'A', body: vec![0, 0, 0, 1, 0, 0] });
}

#[test]
fn round_trip_every_sample() {
    for message in sample_messages() {
        round_trip(message);
    }
}

#[test]
fn ready_for_query_has_these_bytes() {
    assert_eq!(wire(&Message::ReadyForQuery { status: b'I' }), vec![90, 0, 0, 0, 5, 73]);
    let mut buf = BytesMut::from(&[90u8, 0, 0, 0, 5, 73][..]);
    assert_eq!(decode(&mut buf), Ok(Some(Message::ReadyForQuery { status: 73 })));
}

#[test]
fn data_row_has_these_bytes() {
    let message = Message::DataRow { row: Row { columns: vec![Some(vec![1, 2]), None] } };
    assert_eq!(
        wire(&message),
        vec![68, 0, 0, 0, 16, 0, 2, 0, 0, 0, 2, 1, 2, 255, 255, 255, 255]
    );
}

#[test]
fn error_response_has_these_bytes() {
    let message = Message::Response {
        error: true,
        fields: vec![Field { kind: b'S', value: b"E".to_vec() }, Field { kind: b'M', value: b"no".to_vec() }],
    };
    assert_eq!(wire(&message), vec![69, 0, 0, 0, 12, 83, 69, 0, 77, 110, 111, 0, 0]);
    let notice = Message::Response { error: false, fields: vec![] };
    assert_eq!(wire(&notice), vec![78, 0, 0, 0, 5, 0]);
}

#[test]
fn parameter_status_and_key_data_have_these_bytes() {
    let status = Message::ParameterStatus { name: b"a".to_vec(), value: b"bc".to_vec() };
    assert_eq!(wire(&status), vec![83, 0, 0, 0, 9, 97, 0, 98, 99, 0]);
    let key = Message::BackendKeyData { process_id: 1, secret_key: 258 };
    assert_eq!(wire(&key), vec![75, 0, 0, 0, 12, 0, 0, 0, 1, 0, 0, 1, 2]);
    let auth = Message::Authentication { method: 3, data: vec![] };
    assert_eq!(wire(&auth), vec![82, 0, 0, 0, 8, 0, 0, 0, 3]);
    let done = Message::CommandComplete { tag: b"OK".to_vec() };
    assert_eq!(wire(&done), vec![67, 0, 0, 0, 7, 79, 75, 0]);
}

#[test]
fn decode_of_every_proper_part_asks_for_more_and_keeps_the_bytes() {
    for message in sample_messages() {
        let bytes = wire(&message);
        for k in 0..bytes.len() {
            let mut buf = BytesMut::from(&bytes[..k]);
            assert_eq!(decode(&mut buf), Ok(None));
            assert_eq!(&buf[..], &bytes[..k]);
            assert_eq!(decode(&mut buf), Ok(None));
            assert_eq!(&buf[..], &bytes[..k]);
        }
    }
}

#[test]
fn decode_takes_one_message_and_leaves_the_rest() {
    let first = Message::CommandComplete { tag: b"SELECT 1".to_vec() };
    let second = Message::ReadyForQuery { status: b'I' };
    let mut bytes = wire(&first);
    bytes.extend_from_slice(&wire(&second));
    bytes.extend_from_slice(&[68, 0, 0]);
    let mut buf = BytesMut::from(&bytes[..]);
    assert_eq!(decode(&mut buf), Ok(Some(first)));
    assert_eq!(&buf[..], &[90, 0, 0, 0, 5, 73, 68, 0, 0][..]);
    assert_eq!(decode(&mut buf), Ok(Some(second)));
    assert_eq!(&buf[..], &[68, 0, 0][..]);
    assert_eq!(decode(&mut buf), Ok(None));
    assert_eq!(&buf[..], &[68, 0, 0][..]);
}

#[test]
fn decode_rejects_a_length_below_four() {
    let mut buf = BytesMut::from(&[90u8, 0, 0, 0, 3, 73][..]);
    assert_eq!(decode(&mut buf), Err(ProtocolError::LengthTooShort { tag: 90, length: 3 }));
    assert_eq!(&buf[..], &[90, 0, 0, 0, 3, 73][..]);
}

#[test]
fn decode_rejects_a_length_above_the_limit() {
    let mut buf = BytesMut::from(&[68u8, 0x10, 0, 0, 0][..]);
    assert_eq!(
        decode(&mut buf),
        Err(ProtocolError::LengthTooLong { tag: 68, length: 0x1000_0000 })
    );
    let mut at_limit = BytesMut::from(&[68u8, 0x0f, 0xff, 0xff, 0xff][..]);
    assert_eq!(decode(&mut at_limit), Ok(None));
}

#[test]
fn decode_rejects_a_malformed_payload_and_keeps_the_bytes() {
    let bytes = [90u8, 0, 0, 0, 6, 73, 73];
    let mut buf = BytesMut::from(&bytes[..]);
    assert_eq!(decode(&mut buf), Err(ProtocolError::MalformedBody { tag: 90 }));
    assert_eq!(&buf[..], &bytes[..]);
}

#[test]
fn parse_message_rejects_what_has_not_the_layout_of_its_tag() {
    let malformed = |tag: u8| Err(ProtocolError::MalformedBody { tag });
    assert_eq!(parse_message(b'R', &[0, 0, 0]), malformed(b'R'));
    assert_eq!(parse_message(b'S', b"name\0value"), malformed(b'S'));
    assert_eq!(parse_message(b'S', b"name\0value\0x"), malformed(b'S'));
    assert_eq!(parse_message(b'S', b"name"), malformed(b'S'));
    assert_eq!(parse_message(b'K', &[0; 7]), malformed(b'K'));
    assert_eq!(parse_message(b'K', &[0; 9]), malformed(b'K'));
    assert_eq!(parse_message(b'Z', &[]), malformed(b'Z'));
    assert_eq!(parse_message(b'E', &[]), malformed(b'E'));
    assert_eq!(parse_message(b'E', b"Sx"), malformed(b'E'));
    assert_eq!(parse_message(b'E', b"Sx\0"), malformed(b'E'));
    assert_eq!(parse_message(b'N', b"\0\0"), malformed(b'N'));
    assert_eq!(parse_message(b'D', &[0]), malformed(b'D'));
    assert_eq!(parse_message(b'D', &[0, 1]), malformed(b'D'));
    assert_eq!(parse_message(b'D', &[0xff, 0xff]), malformed(b'D'));
    assert_eq!(parse_message(b'D', &[0, 1, 0, 0, 0, 2, 7]), malformed(b'D'));
    assert_eq!(parse_message(b'D', &[0, 1, 0xff, 0xff, 0xff, 0xfe]), malformed(b'D'));
    assert_eq!(parse_message(b'D', &[0, 0, 1]), malformed(b'D'));
    assert_eq!(parse_message(b'C', b"SELECT 1"), malformed(b'C'));
    assert_eq!(parse_message(b'C', b"SELECT\0 1\0"), malformed(b'C'));
}

#[test]
fn parse_message_reads_each_layout() {
    assert_eq!(
        parse_message(b'R', &[0, 0, 0, 5, 1, 2, 3, 4]),
        Ok(Message::Authentication { method: 5, data: vec![1, 2, 3, 4] })
    );
    assert_eq!(
        parse_message(b'S', b"TimeZone\0UTC\0"),
        Ok(Message::ParameterStatus { name: b"TimeZone".to_vec(), value: b"UTC".to_vec() })
    );
    assert_eq!(
        parse_message(b'K', &[0, 0, 1, 0, 0x80, 0, 0, 1]),
        Ok(Message::BackendKeyData { process_id: 256, secret_key: 0x8000_0001 })
    );
    assert_eq!(
        parse_message(b'N', b"SWARNING\0Mcareful\0\0"),
        Ok(Message::Response {
            error: false,
            fields: vec![
                Field { kind: b'S', value: b"WARNING".to_vec() },
                Field { kind: b'M', value: b"careful".to_vec() },
            ],
        })
    );
    assert_eq!(
        parse_message(b'D', &[0, 2, 0xff, 0xff, 0xff, 0xff, 0, 0, 0, 1, 9]),
        Ok(Message::DataRow { row: Row { columns: vec![None, Some(vec![9])] } })
    );
    assert_eq!(
        parse_message(b'C', b"UPDATE 2\0"),
        Ok(Message::CommandComplete { tag: b"UPDATE 2".to_vec() })
    );
    assert_eq!(parse_message(b'n', &[]), Ok(Message::Other { tag: b'n', body: vec![] }));
}

#[test]
fn find_field_gives_the_first_of_its_kind_or_nothing() {
    let fields = vec![
        Field { kind: b'S', value: b"ERROR".to_vec() },
        Field { kind: b'M', value: b"first".to_vec() },
        Field { kind: b'M', value: b"second".to_vec() },
    ];
    assert_eq!(find_field(&fields, b'M'), b"first".to_vec());
    assert_eq!(find_field(&fields, b'S'), b"ERROR".to_vec());
    assert_eq!(find_field(&fields, b'D'), Vec::<u8>::new());
    assert_eq!(find_field(&Vec::new(), b'M'), Vec::<u8>::new());
}

#[test]
fn tag_names_the_kind_of_message() {
    let tags: Vec<u8> = sample_messages().iter().map(|m| m.tag()).collect();
    assert_eq!(
        tags,
        vec![b'R', b'R', b'S', b'S', b'K', b'Z', b'E', b'N', b'D', b'D', b'C', b'1', b't']
    );
}
