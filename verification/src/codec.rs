//! Cutting the incoming byte stream into messages.

use crate::buffer::{buffer_byte, buffer_copy, buffer_len, buffer_split_to, held};
use crate::error::ProtocolError;
use crate::message::{
    body_of, lemma_parse_body, parse, parse_message, tag_of, well_formed, wire_of, Message,
    MessageView,
};
use crate::wire::{be32, frame, from_be32, lemma_be32_round_trip, MAX_LENGTH};
use bytes::BytesMut;
use vstd::prelude::*;

verus! {

/// What the front of a byte stream holds.
pub enum Decoded {
    /// Less than one whole message: more bytes are needed.
    Incomplete,
    /// Bytes that cannot start a message.
    Invalid { error: ProtocolError },
    /// A message, which takes up the first `used` bytes.
    Complete { message: MessageView, used: int },
}

/// What the front of `b` holds.
///
/// The first byte is the tag; the next four are the length, which counts
/// itself and the payload. A length below 4 is invalid as soon as it can be
/// read, and so is one above `MAX_LENGTH`: the read buffer could never hold
/// that message whole. With fewer bytes than tag and length announce, the
/// message is incomplete, whatever its payload will be.
pub open spec fn decode_of(b: Seq<u8>) -> Decoded {
    if b.len() < 5 {
        Decoded::Incomplete
    } else {
        let tag = b[0];
        let length = from_be32(b, 1);
        if length < 4 {
            Decoded::Invalid { error: ProtocolError::LengthTooShort { tag, length } }
        } else if length > MAX_LENGTH {
            Decoded::Invalid { error: ProtocolError::LengthTooLong { tag, length } }
        } else if b.len() < 1 + length {
            Decoded::Incomplete
        } else {
            match parse(tag, b.subrange(5, 1 + length)) {
                Some(message) => Decoded::Complete { message, used: 1 + length },
                None => Decoded::Invalid { error: ProtocolError::MalformedBody { tag } },
            }
        }
    }
}

/// Takes one message from the front of `buf`.
///
/// A whole message is parsed and its bytes leave the buffer. With less than
/// a whole message the result is `Ok(None)`, and with bytes that cannot be a
/// message it is the error: in both cases the buffer holds what it held, so
/// that the call can be repeated once more bytes have come.
pub fn decode(buf: &mut BytesMut) -> (r: Result<Option<Message>, ProtocolError>)
    ensures
        match decode_of(held(*old(buf))) {
            Decoded::Incomplete => r matches Ok(None) && held(*final(buf)) == held(*old(buf)),
            Decoded::Invalid { error } => r matches Err(e) && e == error && held(*final(buf))
                == held(*old(buf)),
            Decoded::Complete { message, used } => r matches Ok(Some(m)) && m@ == message && held(
                *final(buf),
            ) == held(*old(buf)).subrange(used, held(*old(buf)).len() as int),
        },
{
    let len = buffer_len(buf);
    if len < 5 {
        return Ok(None);
    }
    let tag = buffer_byte(buf, 0);
    let b0: u32 = buffer_byte(buf, 1) as u32;
    let b1: u32 = buffer_byte(buf, 2) as u32;
    let b2: u32 = buffer_byte(buf, 3) as u32;
    let b3: u32 = buffer_byte(buf, 4) as u32;
    let length: u32 = b0 * 16777216 + b1 * 65536 + b2 * 256 + b3;
    if length < 4 {
        return Err(ProtocolError::LengthTooShort { tag, length });
    }
    if length > MAX_LENGTH {
        return Err(ProtocolError::LengthTooLong { tag, length });
    }
    let used: usize = 1 + length as usize;
    if len < used {
        return Ok(None);
    }
    let body = buffer_copy(buf, 5, used);
    match parse_message(tag, body.as_slice()) {
        Ok(message) => {
            let _front = buffer_split_to(buf, used);
            Ok(Some(message))
        },
        Err(e) => Err(e),
    }
}

/// The parts of a frame, where they lie in it.
pub proof fn lemma_frame_parts(tag: u8, body: Seq<u8>, rest: Seq<u8>)
    requires
        body.len() + 4 <= MAX_LENGTH,
    ensures
        frame(tag, body).len() == body.len() + 5,
        (frame(tag, body) + rest)[0] == tag,
        from_be32(frame(tag, body) + rest, 1) == body.len() + 4,
        (frame(tag, body) + rest).subrange(5, 5 + body.len() as int) == body,
        (frame(tag, body) + rest).subrange(5 + body.len() as int, (frame(tag, body) + rest).len() as int)
            == rest,
{
    let length = (body.len() + 4) as u32;
    let b = frame(tag, body) + rest;
    assert(be32(length).len() == 4);
    assert(b.subrange(1, 5) =~= be32(length));
    lemma_be32_round_trip(length, b, 1);
    assert(b.subrange(5, 5 + body.len() as int) =~= body);
    assert(b.subrange(5 + body.len() as int, b.len() as int) =~= rest);
}

/// Decoding what a well-formed message was encoded to gives that message,
/// and uses up exactly its bytes, whatever follows them.
pub proof fn lemma_decode_encoded(m: MessageView, rest: Seq<u8>)
    requires
        well_formed(m),
    ensures
        decode_of(wire_of(m) + rest) == (Decoded::Complete {
            message: m,
            used: wire_of(m).len() as int,
        }),
        (wire_of(m) + rest).subrange(wire_of(m).len() as int, (wire_of(m) + rest).len() as int)
            == rest,
{
    lemma_frame_parts(tag_of(m), body_of(m), rest);
    lemma_parse_body(m);
}

/// What the front of a byte stream holds does not depend on what follows
/// it: a message is the same message, of the same length, with more bytes
/// behind it, and bytes that are no message stay so.
pub proof fn lemma_decode_followed(b: Seq<u8>, more: Seq<u8>)
    ensures
        !(decode_of(b) is Incomplete) ==> decode_of(b + more) == decode_of(b),
        decode_of(b) matches Decoded::Complete { used, .. } ==> 5 <= used <= b.len() && (b
            + more).subrange(used, (b + more).len() as int) == b.subrange(used, b.len() as int)
            + more,
{
    let all = b + more;
    if b.len() >= 5 {
        assert(all[0] == b[0] && all[1] == b[1] && all[2] == b[2] && all[3] == b[3] && all[4]
            == b[4]);
        let length = from_be32(b, 1);
        if 4 <= length <= MAX_LENGTH && b.len() >= 1 + length {
            assert(all.subrange(5, 1 + length) =~= b.subrange(5, 1 + length));
            assert(all.subrange(1 + length, all.len() as int) =~= b.subrange(
                1 + length,
                b.len() as int,
            ) + more);
        }
    }
}

/// With fewer bytes than a tag and a length take, or than the length
/// announces, the decoder asks for more bytes, whatever the bytes are.
pub proof fn lemma_decode_short(b: Seq<u8>)
    requires
        b.len() < 5 || (4 <= from_be32(b, 1) <= MAX_LENGTH && b.len() < 1 + from_be32(b, 1)),
    ensures
        decode_of(b) == Decoded::Incomplete,
{
}

/// With any proper part of an encoded message, from its start, the decoder
/// asks for more bytes: it never takes a part for a message or for an error.
pub proof fn lemma_decode_partial(m: MessageView, k: int)
    requires
        well_formed(m),
        0 <= k < wire_of(m).len(),
    ensures
        decode_of(wire_of(m).subrange(0, k)) == Decoded::Incomplete,
{
    let whole = wire_of(m);
    let part = whole.subrange(0, k);
    lemma_frame_parts(tag_of(m), body_of(m), Seq::<u8>::empty());
    assert(whole + Seq::<u8>::empty() =~= whole);
    if k >= 5 {
        assert(part[1] == whole[1] && part[2] == whole[2] && part[3] == whole[3] && part[4]
            == whole[4]);
    }
}

} // verus!
