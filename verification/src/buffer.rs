//! The receive buffer: a [`BytesMut`] and what it holds.

use bytes::{Bytes, BytesMut};
use vstd::prelude::*;

verus! {

/// A growable, splittable byte buffer of the `bytes` crate. Opaque: what is
/// known of a value is what [`buffer_bytes`] names.
#[verifier::external_type_specification]
#[verifier::external_body]
pub struct ExBytesMut(BytesMut);

/// A cheaply cloneable byte string of the `bytes` crate. Opaque: the driver
/// only carries it through.
#[verifier::external_type_specification]
#[verifier::external_body]
pub struct ExBytes(Bytes);

/// The bytes that a buffer holds, first byte first: `buffer[..]` as a sequence.
pub uninterp spec fn buffer_bytes(buffer: BytesMut) -> Seq<u8>;

/// `bytes` cut down, or filled up with zeros at the end, to a length of `len`.
pub open spec fn resized(bytes: Seq<u8>, len: nat) -> Seq<u8> {
    Seq::new(
        len,
        |i: int|
            if i < bytes.len() {
                bytes[i]
            } else {
                0u8
            },
    )
}

/// `BytesMut::zeroed` makes a buffer of `len` bytes, all of them zero. It
/// allocates `len` bytes, which fails by a panic beyond `isize::MAX`.
pub assume_specification[ BytesMut::zeroed ](len: usize) -> (buffer: BytesMut)
    requires
        len <= isize::MAX,
    ensures
        buffer_bytes(buffer) == resized(Seq::empty(), len as nat),
;

/// `BytesMut::resize` keeps the first `new_len` bytes; where there are fewer it
/// keeps them all and appends copies of `value` up to `new_len`.
///
/// Growing reserves space, which panics where the capacity computed for it
/// overflows; that computation also counts space in front of the contents. Up
/// to 65536 bytes no state of the buffer makes it overflow.
pub assume_specification[ BytesMut::resize ](buffer: &mut BytesMut, new_len: usize, value: u8)
    requires
        new_len <= 65536,
    ensures
        buffer_bytes(*final(buffer)) == Seq::new(
            new_len as nat,
            |i: int|
                if i < buffer_bytes(*old(buffer)).len() {
                    buffer_bytes(*old(buffer))[i]
                } else {
                    value
                },
        ),
;

/// `BytesMut::split_to` takes the first `at` bytes out of the buffer and
/// returns them; the buffer keeps the rest. It panics where there are fewer.
pub assume_specification[ BytesMut::split_to ](buffer: &mut BytesMut, at: usize) -> (front: BytesMut)
    requires
        at <= buffer_bytes(*old(buffer)).len(),
    ensures
        buffer_bytes(front) == buffer_bytes(*old(buffer)).subrange(0, at as int),
        buffer_bytes(*final(buffer)) == buffer_bytes(*old(buffer)).subrange(
            at as int,
            buffer_bytes(*old(buffer)).len() as int,
        ),
;

/// `BytesMut::as_mut` (of `AsMut<[u8]>`) lends the bytes of the buffer for
/// writing. Their number stays; what is written into the slice is then what the
/// buffer holds.
#[verifier::external_body]
pub(crate) fn buffer_slice(buffer: &mut BytesMut) -> (slice: &mut [u8])
    ensures
        slice@ == buffer_bytes(*old(buffer)),
        final(slice)@.len() == slice@.len(),
        buffer_bytes(*final(buffer)) == final(slice)@,
{
    buffer.as_mut()
}

} // verus!
