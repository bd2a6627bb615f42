use pg_connection::frontend::{
    Bind, Encode, Execute, Parse, PasswordMessage, StartupMessage, Sync, Terminate,
};
use pg_connection::wire::{
    copy_range, find_nul, get_u16, get_u32, put_bytes, put_cstr, put_frame, put_i16_all, put_u16,
    put_u32, put_u32_all, put_u8, to_signed16, to_signed32, to_unsigned16, to_unsigned32,
};

fn encoded<M: Encode>(message: &M) -> Vec<u8> {
    let mut out = vec![7u8];
    message.encode(&mut out);
    assert_eq!(out[0], 7);
    out.split_off(1)
}

#[test]
fn integers_are_written_most_significant_byte_first() {
    let mut out = Vec::new();
    put_u8(&mut out, 0xab);
    put_u16(&mut out, 0x0102);
    put_u32(&mut out, 0x0304_0506);
    put_u32(&mut out, u32::MAX);
    put_u16(&mut out, 0);
    assert_eq!(out, vec![0xab, 1, 2, 3, 4, 5, 6, 255, 255, 255, 255, 0, 0]);
    assert_eq!(get_u16(&out, 1), 0x0102);
    assert_eq!(get_u32(&out, 3), 0x0304_0506);
    assert_eq!(get_u32(&out, 7), u32::MAX);
    assert_eq!(get_u16(&out, 11), 0);
}

#[test]
fn signed_and_unsigned_readings_share_their_bits() {
    assert_eq!(to_unsigned16(-1), 0xffff);
    assert_eq!(to_unsigned16(i16::MIN), 0x8000);
    assert_eq!(to_unsigned16(i16::MAX), 0x7fff);
    assert_eq!(to_unsigned16(0), 0);
    assert_eq!(to_unsigned32(-1), 0xffff_ffff);
    assert_eq!(to_unsigned32(i32::MIN), 0x8000_0000);
    assert_eq!(to_unsigned32(1), 1);
    assert_eq!(to_signed16(0xffff), -1);
    assert_eq!(to_signed16(0x8000), i16::MIN);
    assert_eq!(to_signed16(0x7fff), i16::MAX);
    assert_eq!(to_signed32(0xffff_ffff), -1);
    assert_eq!(to_signed32(0x8000_0000), i32::MIN);
    assert_eq!(to_signed32(0x7fff_ffff), i32::MAX);
    for x in [i32::MIN, -2, -1, 0, 1, 77, i32::MAX] {
        assert_eq!(to_signed32(to_unsigned32(x)), x);
    }
    for x in [i16::MIN, -2, -1, 0, 1, 77, i16::MAX] {
        assert_eq!(to_signed16(to_unsigned16(x)), x);
    }
}

#[test]
fn strings_and_lists_are_written_in_order() {
    let mut out = vec![1u8];
    put_bytes(&mut out, &[2, 3]);
    put_cstr(&mut out, b"ab");
    put_cstr(&mut out, b"");
    put_u32_all(&mut out, &[1, 0x0100_0000]);
    put_i16_all(&mut out, &[1, -2]);
    assert_eq!(out, vec![1, 2, 3, 97, 98, 0, 0, 0, 0, 0, 1, 1, 0, 0, 0, 0, 1, 0xff, 0xfe]);
}

#[test]
fn frames_count_their_length_and_payload() {
    let mut out = Vec::new();
    put_frame(&mut out, b'X', &[]);
    put_frame(&mut out, b'd', &[1, 2, 3]);
    assert_eq!(out, vec![88, 0, 0, 0, 4, 100, 0, 0, 0, 7, 1, 2, 3]);
}

#[test]
fn find_nul_gives_the_first_zero_or_the_length() {
    assert_eq!(find_nul(b"ab\0cd\0", 0), 2);
    assert_eq!(find_nul(b"ab\0cd\0", 2), 2);
    assert_eq!(find_nul(b"ab\0cd\0", 3), 5);
    assert_eq!(find_nul(b"ab\0cd", 3), 5);
    assert_eq!(find_nul(b"", 0), 0);
    assert_eq!(find_nul(b"abc", 3), 3);
}

#[test]
fn copy_range_copies_the_bytes_between_two_positions() {
    assert_eq!(copy_range(&[1, 2, 3, 4], 1, 3), vec![2, 3]);
    assert_eq!(copy_range(&[1, 2, 3, 4], 2, 2), Vec::<u8>::new());
    assert_eq!(copy_range(&[1, 2, 3, 4], 0, 4), vec![1, 2, 3, 4]);
}

#[test]
fn parse_has_these_bytes() {
    let message = Parse { portal: "", query: "SELECT $1", param_types: &[23] };
    let mut expected = vec![80, 0, 0, 0, 21, 0];
    expected.extend_from_slice(b"SELECT $1\0");
    expected.extend_from_slice(&[0, 1, 0, 0, 0, 23]);
    assert_eq!(encoded(&message), expected);
    let named = Parse { portal: "s1", query: "", param_types: &[] };
    assert_eq!(encoded(&named), vec![80, 0, 0, 0, 10, 115, 49, 0, 0, 0, 0]);
}

#[test]
fn bind_has_these_bytes() {
    let message = Bind {
        portal: "",
        statement: "",
        formats: &[1],
        values_len: 2,
        values: &[0, 0, 0, 1, 9, 255, 255, 255, 255],
        result_formats: &[1],
    };
    assert_eq!(
        encoded(&message),
        vec![
            66, 0, 0, 0, 25, 0, 0, 0, 1, 0, 1, 0, 2, 0, 0, 0, 1, 9, 255, 255, 255, 255, 0, 1, 0,
            1
        ]
    );
    let bare = Bind {
        portal: "p",
        statement: "s",
        formats: &[],
        values_len: -1,
        values: &[],
        result_formats: &[0, 1],
    };
    assert_eq!(
        encoded(&bare),
        vec![66, 0, 0, 0, 18, 112, 0, 115, 0, 0, 0, 255, 255, 0, 2, 0, 0, 0, 1]
    );
}

#[test]
fn execute_sync_and_terminate_have_these_bytes() {
    assert_eq!(encoded(&Execute { portal: "", limit: 0 }), vec![69, 0, 0, 0, 9, 0, 0, 0, 0, 0]);
    assert_eq!(encoded(&Execute { portal: "", limit: 1 }), vec![69, 0, 0, 0, 9, 0, 0, 0, 0, 1]);
    assert_eq!(
        encoded(&Execute { portal: "c", limit: -1 }),
        vec![69, 0, 0, 0, 10, 99, 0, 255, 255, 255, 255]
    );
    assert_eq!(encoded(&Sync), vec![83, 0, 0, 0, 4]);
    assert_eq!(encoded(&Terminate), vec![88, 0, 0, 0, 4]);
}

#[test]
fn startup_and_password_have_these_bytes() {
    let plain = StartupMessage { user: b"bob", database: None };
    let mut expected = vec![0, 0, 0, 18, 0, 3, 0, 0];
    expected.extend_from_slice(b"user\0bob\0\0");
    assert_eq!(encoded(&plain), expected);
    let named = StartupMessage { user: b"bob", database: Some(b"shop") };
    let mut expected = vec![0, 0, 0, 32, 0, 3, 0, 0];
    expected.extend_from_slice(b"user\0bob\0database\0shop\0\0");
    assert_eq!(encoded(&named), expected);
    let password = PasswordMessage { password: b"secret" };
    let mut expected = vec![112, 0, 0, 0, 11];
    expected.extend_from_slice(b"secret\0");
    assert_eq!(encoded(&password), expected);
}
