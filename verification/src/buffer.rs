//! The read buffer's storage: a `bytes::BytesMut`, seen as the byte sequence
//! that it holds.

use bytes::BytesMut;
use vstd::prelude::*;

verus! {

#[verifier::external_type_specification]
#[verifier::external_body]
pub struct ExBytesMut(bytes::BytesMut);

/// The bytes that a buffer holds, first to last.
pub uninterp spec fn held(buf: BytesMut) -> Seq<u8>;

/// The most bytes that this crate ever keeps in one buffer.
///
/// `BytesMut` panics when a capacity that it asks for overflows. To append
/// it asks for at most twice what it already has, or for what it holds and
/// is asked to add, so with every request bounded by this number no capacity
/// comes near the limit of an allocation, on 32-bit machines either.
pub const MAX_HELD: usize = 0x1000_0000;

/// `BytesMut::with_capacity`: the new buffer holds no byte, whatever room it
/// has.
#[verifier::external_body]
pub(crate) fn buffer_with_capacity(capacity: usize) -> (r: BytesMut)
    requires
        capacity <= MAX_HELD,
    ensures
        held(r) == Seq::<u8>::empty(),
{
    BytesMut::with_capacity(capacity)
}

/// `BytesMut::len`: the number of bytes held.
#[verifier::external_body]
pub(crate) fn buffer_len(buf: &BytesMut) -> (r: usize)
    ensures
        r == held(*buf).len(),
{
    buf.len()
}

/// `BytesMut`'s `Deref` to a slice, indexed: the byte held at `i`.
#[verifier::external_body]
pub(crate) fn buffer_byte(buf: &BytesMut, i: usize) -> (r: u8)
    requires
        i < held(*buf).len(),
    ensures
        r == held(*buf)[i as int],
{
    buf[i]
}

/// `BytesMut::extend_from_slice`: what is held is followed by `data`.
#[verifier::external_body]
pub(crate) fn buffer_extend(buf: &mut BytesMut, data: &[u8])
    requires
        held(*old(buf)).len() + data@.len() <= MAX_HELD,
    ensures
        held(*final(buf)) == held(*old(buf)) + data@,
{
    buf.extend_from_slice(data)
}

/// `BytesMut::split_to`: the first `at` bytes leave the buffer and are
/// returned; the others stay, in order.
#[verifier::external_body]
pub(crate) fn buffer_split_to(buf: &mut BytesMut, at: usize) -> (r: BytesMut)
    requires
        at <= held(*old(buf)).len(),
    ensures
        held(r) == held(*old(buf)).subrange(0, at as int),
        held(*final(buf)) == held(*old(buf)).subrange(at as int, held(*old(buf)).len() as int),
{
    buf.split_to(at)
}

/// Copies what `buf` holds from `from` up to `to` into a vector.
pub(crate) fn buffer_copy(buf: &BytesMut, from: usize, to: usize) -> (r: Vec<u8>)
    requires
        from <= to <= held(*buf).len(),
    ensures
        r@ == held(*buf).subrange(from as int, to as int),
{
    let mut out: Vec<u8> = Vec::new();
    let mut i: usize = from;
    while i < to
        invariant
            from <= i <= to <= held(*buf).len(),
            out@ == held(*buf).subrange(from as int, i as int),
        decreases to - i,
    {
        out.push(buffer_byte(buf, i));
        assert(out@ =~= held(*buf).subrange(from as int, i + 1));
        i = i + 1;
    }
    out
}

} // verus!
