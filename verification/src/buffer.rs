//! The byte buffer of the encoder and the decoder: `bytes::BytesMut`, seen
//! as the sequence of bytes it holds.

use bytes::BytesMut;
use vstd::prelude::*;

verus! {

/// `bytes::BytesMut`, a growable buffer of bytes. Nothing is known of a
/// buffer but what the functions below say of the bytes it holds.
#[verifier::external_type_specification]
#[verifier::external_body]
pub struct ExBytesMut(bytes::BytesMut);

/// The bytes that a buffer holds, in order.
pub uninterp spec fn bytes_of(b: BytesMut) -> Seq<u8>;

/// `BytesMut::new`: a buffer that holds nothing.
#[verifier::external_body]
pub(crate) fn buf_new() -> (b: BytesMut)
    ensures
        bytes_of(b) == Seq::<u8>::empty(),
{
    BytesMut::new()
}

/// `BytesMut::from` on a slice: a buffer that holds a copy of the slice.
#[verifier::external_body]
pub(crate) fn buf_from_slice(s: &[u8]) -> (b: BytesMut)
    ensures
        bytes_of(b) == s@,
{
    BytesMut::from(s)
}

/// `BytesMut::len`: the number of bytes held.
#[verifier::external_body]
pub(crate) fn buf_len(b: &BytesMut) -> (n: usize)
    ensures
        n == bytes_of(*b).len(),
{
    b.len()
}

/// `BytesMut::as_ref`: the bytes held, as a slice.
#[verifier::external_body]
pub(crate) fn buf_as_slice(b: &BytesMut) -> (s: &[u8])
    ensures
        s@ == bytes_of(*b),
{
    b.as_ref()
}

/// Indexed assignment through `BytesMut::deref_mut`: the byte at `i` becomes
/// `v`, the others stay.
#[verifier::external_body]
pub(crate) fn buf_set(b: &mut BytesMut, i: usize, v: u8)
    requires
        i < bytes_of(*old(b)).len(),
    ensures
        bytes_of(*final(b)) == bytes_of(*old(b)).update(i as int, v),
{
    b[i] = v;
}

/// `BytesMut::extend_from_slice`: the slice is appended.
#[verifier::external_body]
pub(crate) fn buf_extend(b: &mut BytesMut, s: &[u8])
    ensures
        bytes_of(*final(b)) == bytes_of(*old(b)) + s@,
{
    b.extend_from_slice(s);
}

/// `BytesMut::unsplit`: the bytes of `other` are appended.
#[verifier::external_body]
pub(crate) fn buf_unsplit(b: &mut BytesMut, other: BytesMut)
    ensures
        bytes_of(*final(b)) == bytes_of(*old(b)) + bytes_of(other),
{
    b.unsplit(other);
}

/// `BytesMut::split_to`: the first `at` bytes leave the buffer and are
/// returned; the rest stays.
#[verifier::external_body]
pub(crate) fn buf_split_to(b: &mut BytesMut, at: usize) -> (front: BytesMut)
    requires
        at <= bytes_of(*old(b)).len(),
    ensures
        bytes_of(front) == bytes_of(*old(b)).subrange(0, at as int),
        bytes_of(*final(b)) == bytes_of(*old(b)).subrange(
            at as int,
            bytes_of(*old(b)).len() as int,
        ),
{
    b.split_to(at)
}

/// `BytesMut::split_off`: the bytes from `at` on leave the buffer and are
/// returned, together with the room behind them; the first `at` bytes stay.
#[verifier::external_body]
pub(crate) fn buf_split_off(b: &mut BytesMut, at: usize) -> (back: BytesMut)
    requires
        at <= bytes_of(*old(b)).len(),
    ensures
        bytes_of(*final(b)) == bytes_of(*old(b)).subrange(0, at as int),
        bytes_of(back) == bytes_of(*old(b)).subrange(at as int, bytes_of(*old(b)).len() as int),
{
    b.split_off(at)
}

/// `BytesMut::clear`: the buffer holds nothing afterwards.
#[verifier::external_body]
pub(crate) fn buf_clear(b: &mut BytesMut)
    ensures
        bytes_of(*final(b)) == Seq::<u8>::empty(),
{
    b.clear();
}

/// `BytesMut::reserve`: room is made for `additional` more bytes; the bytes
/// held stay as they are. The call panics where the room asked for overflows
/// what a buffer can hold, which the precondition leaves out.
#[verifier::external_body]
pub(crate) fn buf_reserve(b: &mut BytesMut, additional: usize)
    requires
        bytes_of(*old(b)).len() + additional <= isize::MAX,
    ensures
        bytes_of(*final(b)) == bytes_of(*old(b)),
{
    b.reserve(additional);
}

} // verus!
