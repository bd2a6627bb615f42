//! Big-endian integers and byte strings, as the wire carries them.

use vstd::prelude::*;

verus! {

/// The largest length that is accepted of an incoming message: with its
/// tag, a message of this length is the most that the read buffer holds, and
/// a message must lie in the buffer whole before it is decoded.
pub const MAX_LENGTH: u32 = 0x0fff_ffff;

/// The largest value that a length field can carry: the wire reads its four
/// bytes as a signed number.
pub const MAX_FRAME_LENGTH: u32 = 0x7fff_ffff;

/// A message on the wire: its tag, a length that counts itself and the
/// payload, and the payload.
pub open spec fn frame(tag: u8, body: Seq<u8>) -> Seq<u8> {
    seq![tag] + be32((body.len() + 4) as u32) + body
}

/// The numbers of `xs`, four bytes each, in order.
pub open spec fn be32_all(xs: Seq<u32>) -> Seq<u8>
    decreases xs.len(),
{
    if xs.len() == 0 {
        Seq::<u8>::empty()
    } else {
        be32_all(xs.drop_last()) + be32(xs.last())
    }
}

/// The numbers of `xs`, two bytes each in two's complement, in order.
pub open spec fn be16_all(xs: Seq<i16>) -> Seq<u8>
    decreases xs.len(),
{
    if xs.len() == 0 {
        Seq::<u8>::empty()
    } else {
        be16_all(xs.drop_last()) + be16(unsigned16(xs.last()))
    }
}

/// The two bytes of `x`, most significant first.
pub open spec fn be16(x: u16) -> Seq<u8> {
    seq![(x / 256) as u8, (x % 256) as u8]
}

/// The four bytes of `x`, most significant first.
pub open spec fn be32(x: u32) -> Seq<u8> {
    seq![
        (x / 16777216) as u8,
        ((x / 65536) % 256) as u8,
        ((x / 256) % 256) as u8,
        (x % 256) as u8,
    ]
}

/// The number that the two bytes of `b` at `at` spell, most significant first.
pub open spec fn from_be16(b: Seq<u8>, at: int) -> u16
    recommends
        0 <= at,
        at + 2 <= b.len(),
{
    (b[at] * 256 + b[at + 1]) as u16
}

/// The number that the four bytes of `b` at `at` spell, most significant first.
pub open spec fn from_be32(b: Seq<u8>, at: int) -> u32
    recommends
        0 <= at,
        at + 4 <= b.len(),
{
    (b[at] * 16777216 + b[at + 1] * 65536 + b[at + 2] * 256 + b[at + 3]) as u32
}

/// The unsigned number with the bit pattern of `x` in two's complement.
pub open spec fn unsigned16(x: i16) -> u16 {
    if x >= 0 {
        x as u16
    } else {
        (x + 65536) as u16
    }
}

/// The signed number with the bit pattern of `x` in two's complement.
pub open spec fn signed16(x: u16) -> i16 {
    if x < 32768 {
        x as i16
    } else {
        (x - 65536) as i16
    }
}

/// The unsigned number with the bit pattern of `x` in two's complement.
pub open spec fn unsigned32(x: i32) -> u32 {
    if x >= 0 {
        x as u32
    } else {
        (x + 4294967296) as u32
    }
}

/// The signed number with the bit pattern of `x` in two's complement.
pub open spec fn signed32(x: u32) -> i32 {
    if x < 2147483648 {
        x as i32
    } else {
        (x - 4294967296) as i32
    }
}

/// Bytes that may be absent, as contracts see them.
pub open spec fn optional_slice(bytes: Option<&[u8]>) -> Option<Seq<u8>> {
    match bytes {
        Some(b) => Some(b@),
        None => None,
    }
}

/// `s` followed by the terminating zero byte.
pub open spec fn cstr(s: Seq<u8>) -> Seq<u8> {
    s.push(0u8)
}

/// No byte of `s` is zero, so `s` can be written as a terminated string.
pub open spec fn nul_free(s: Seq<u8>) -> bool {
    forall|i: int| 0 <= i < s.len() ==> s[i] != 0u8
}

/// The position of the first zero byte of `b` at or after `at`, or the length
/// of `b` where there is none.
pub open spec fn nul_position(b: Seq<u8>, at: int) -> int
    decreases b.len() - at,
{
    if at < 0 || at >= b.len() {
        b.len() as int
    } else if b[at] == 0u8 {
        at
    } else {
        nul_position(b, at + 1)
    }
}

/// Reading back what `be16` wrote gives the number again.
pub proof fn lemma_be16_round_trip(x: u16, b: Seq<u8>, at: int)
    requires
        0 <= at,
        at + 2 <= b.len(),
        b.subrange(at, at + 2) == be16(x),
    ensures
        from_be16(b, at) == x,
{
    let w = b.subrange(at, at + 2);
    assert(w[0] == b[at] && w[1] == b[at + 1]);
}

/// Reading back what `be32` wrote gives the number again.
pub proof fn lemma_be32_round_trip(x: u32, b: Seq<u8>, at: int)
    requires
        0 <= at,
        at + 4 <= b.len(),
        b.subrange(at, at + 4) == be32(x),
    ensures
        from_be32(b, at) == x,
{
    let w = b.subrange(at, at + 4);
    assert(w[0] == b[at] && w[1] == b[at + 1] && w[2] == b[at + 2] && w[3] == b[at + 3]);
}

/// In a terminated string that holds no other zero, the terminator is found
/// where the string ends.
pub proof fn lemma_nul_position_of_cstr(b: Seq<u8>, at: int, s: Seq<u8>)
    requires
        0 <= at,
        at + s.len() < b.len(),
        nul_free(s),
        b.subrange(at, at + s.len() + 1) == cstr(s),
    ensures
        nul_position(b, at) == at + s.len(),
    decreases s.len(),
{
    let w = b.subrange(at, at + s.len() + 1);
    assert(w[0] == b[at]);
    if s.len() == 0 {
        assert(cstr(s)[0] == 0u8);
    } else {
        assert(cstr(s)[0] == s[0]);
        let t = s.subrange(1, s.len() as int);
        assert forall|i: int| 0 <= i < t.len() implies t[i] != 0u8 by {
            assert(t[i] == s[i + 1]);
        }
        assert(b.subrange(at + 1, at + 1 + t.len() + 1) =~= cstr(t)) by {
            assert forall|i: int| 0 <= i < t.len() + 1 implies b.subrange(
                at + 1,
                at + 1 + t.len() + 1,
            )[i] == cstr(t)[i] by {
                assert(w[i + 1] == cstr(s)[i + 1]);
                assert(w[i + 1] == b[at + 1 + i]);
                if i < t.len() {
                    assert(t[i] == s[i + 1]);
                }
            }
        }
        lemma_nul_position_of_cstr(b, at + 1, t);
    }
}

/// Appends one byte.
pub fn put_u8(buf: &mut Vec<u8>, x: u8)
    ensures
        final(buf)@ == old(buf)@.push(x),
{
    buf.push(x);
}

/// Appends `x` as two bytes, most significant first.
pub fn put_u16(buf: &mut Vec<u8>, x: u16)
    ensures
        final(buf)@ == old(buf)@ + be16(x),
{
    buf.push((x / 256) as u8);
    buf.push((x % 256) as u8);
    assert(buf@ =~= old(buf)@ + be16(x));
}

/// Appends `x` as four bytes, most significant first.
pub fn put_u32(buf: &mut Vec<u8>, x: u32)
    ensures
        final(buf)@ == old(buf)@ + be32(x),
{
    buf.push((x / 16777216) as u8);
    buf.push(((x / 65536) % 256) as u8);
    buf.push(((x / 256) % 256) as u8);
    buf.push((x % 256) as u8);
    assert(buf@ =~= old(buf)@ + be32(x));
}

/// The unsigned number with the bit pattern of `x`.
pub fn to_unsigned16(x: i16) -> (r: u16)
    ensures
        r == unsigned16(x),
{
    if x >= 0 {
        x as u16
    } else {
        let low: i16 = x - i16::MIN;
        low as u16 + 32768u16
    }
}

/// The unsigned number with the bit pattern of `x`.
pub fn to_unsigned32(x: i32) -> (r: u32)
    ensures
        r == unsigned32(x),
{
    if x >= 0 {
        x as u32
    } else {
        let low: i32 = x - i32::MIN;
        low as u32 + 2147483648u32
    }
}

/// The signed number with the bit pattern of `x`.
pub fn to_signed16(x: u16) -> (r: i16)
    ensures
        r == signed16(x),
{
    if x < 32768 {
        x as i16
    } else {
        let low: u16 = x - 32768u16;
        low as i16 + i16::MIN
    }
}

/// The signed number with the bit pattern of `x`.
pub fn to_signed32(x: u32) -> (r: i32)
    ensures
        r == signed32(x),
{
    if x < 2147483648 {
        x as i32
    } else {
        let low: u32 = x - 2147483648u32;
        low as i32 + i32::MIN
    }
}

/// Appends every byte of `bytes`.
pub fn put_bytes(buf: &mut Vec<u8>, bytes: &[u8])
    ensures
        final(buf)@ == old(buf)@ + bytes@,
{
    buf.extend_from_slice(bytes);
    assert(buf@ =~= old(buf)@ + bytes@);
}

/// Appends `bytes` and the terminating zero byte.
pub fn put_cstr(buf: &mut Vec<u8>, bytes: &[u8])
    ensures
        final(buf)@ == old(buf)@ + cstr(bytes@),
{
    buf.extend_from_slice(bytes);
    buf.push(0u8);
    assert(buf@ =~= old(buf)@ + cstr(bytes@));
}

/// Reads the two bytes at `at` as a number, most significant first.
pub fn get_u16(b: &[u8], at: usize) -> (r: u16)
    requires
        at + 2 <= b@.len(),
    ensures
        r == from_be16(b@, at as int),
{
    let hi: u16 = b[at] as u16;
    let lo: u16 = b[at + 1] as u16;
    hi * 256 + lo
}

/// Reads the four bytes at `at` as a number, most significant first.
pub fn get_u32(b: &[u8], at: usize) -> (r: u32)
    requires
        at + 4 <= b@.len(),
    ensures
        r == from_be32(b@, at as int),
{
    let b0: u32 = b[at] as u32;
    let b1: u32 = b[at + 1] as u32;
    let b2: u32 = b[at + 2] as u32;
    let b3: u32 = b[at + 3] as u32;
    b0 * 16777216 + b1 * 65536 + b2 * 256 + b3
}

/// Finds the first zero byte at or after `at`.
pub fn find_nul(b: &[u8], at: usize) -> (r: usize)
    requires
        at <= b@.len(),
    ensures
        r == nul_position(b@, at as int),
        at <= r <= b@.len(),
{
    let mut i: usize = at;
    while i < b.len() && b[i] != 0u8
        invariant
            at <= i <= b@.len(),
            nul_position(b@, at as int) == nul_position(b@, i as int),
        decreases b@.len() - i,
    {
        i = i + 1;
    }
    i
}

/// Copies the bytes of `b` from `from` up to `to` into a vector of their own.
pub fn copy_range(b: &[u8], from: usize, to: usize) -> (r: Vec<u8>)
    requires
        from <= to <= b@.len(),
    ensures
        r@ == b@.subrange(from as int, to as int),
{
    let mut out: Vec<u8> = Vec::new();
    let mut i: usize = from;
    while i < to
        invariant
            from <= i <= to <= b@.len(),
            out@ == b@.subrange(from as int, i as int),
        decreases to - i,
    {
        out.push(b[i]);
        assert(out@ =~= b@.subrange(from as int, i + 1));
        i = i + 1;
    }
    out
}

/// `be32_all` writes four bytes for each number.
pub proof fn lemma_be32_all_len(xs: Seq<u32>)
    ensures
        be32_all(xs).len() == 4 * xs.len(),
    decreases xs.len(),
{
    if xs.len() > 0 {
        lemma_be32_all_len(xs.drop_last());
    }
}

/// `be16_all` writes two bytes for each number.
pub proof fn lemma_be16_all_len(xs: Seq<i16>)
    ensures
        be16_all(xs).len() == 2 * xs.len(),
    decreases xs.len(),
{
    if xs.len() > 0 {
        lemma_be16_all_len(xs.drop_last());
    }
}

/// Appends each number of `xs` as four bytes.
pub fn put_u32_all(buf: &mut Vec<u8>, xs: &[u32])
    ensures
        final(buf)@ == old(buf)@ + be32_all(xs@),
{
    let mut i: usize = 0;
    assert(buf@ =~= old(buf)@ + be32_all(xs@.subrange(0, 0)));
    while i < xs.len()
        invariant
            0 <= i <= xs@.len(),
            buf@ == old(buf)@ + be32_all(xs@.subrange(0, i as int)),
        decreases xs@.len() - i,
    {
        let ghost done = xs@.subrange(0, i as int);
        put_u32(buf, xs[i]);
        proof {
            let next = xs@.subrange(0, i + 1);
            assert(next.drop_last() =~= done);
            assert(buf@ =~= old(buf)@ + be32_all(next));
        }
        i = i + 1;
    }
    assert(xs@.subrange(0, xs@.len() as int) =~= xs@);
}

/// Appends each number of `xs` as two bytes in two's complement.
pub fn put_i16_all(buf: &mut Vec<u8>, xs: &[i16])
    ensures
        final(buf)@ == old(buf)@ + be16_all(xs@),
{
    let mut i: usize = 0;
    assert(buf@ =~= old(buf)@ + be16_all(xs@.subrange(0, 0)));
    while i < xs.len()
        invariant
            0 <= i <= xs@.len(),
            buf@ == old(buf)@ + be16_all(xs@.subrange(0, i as int)),
        decreases xs@.len() - i,
    {
        let ghost done = xs@.subrange(0, i as int);
        put_u16(buf, to_unsigned16(xs[i]));
        proof {
            let next = xs@.subrange(0, i + 1);
            assert(next.drop_last() =~= done);
            assert(buf@ =~= old(buf)@ + be16_all(next));
        }
        i = i + 1;
    }
    assert(xs@.subrange(0, xs@.len() as int) =~= xs@);
}

/// Appends a message: its tag, its length and `body`.
pub fn put_frame(buf: &mut Vec<u8>, tag: u8, body: &[u8])
    requires
        body@.len() + 4 <= MAX_FRAME_LENGTH,
    ensures
        final(buf)@ == old(buf)@ + frame(tag, body@),
{
    put_u8(buf, tag);
    put_u32(buf, (body.len() + 4) as u32);
    put_bytes(buf, body);
    assert(buf@ =~= old(buf)@ + frame(tag, body@));
}

} // verus!
