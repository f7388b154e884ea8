//! Fixed-capacity byte vectors of the `heapless` crate, as the parser and the
//! decoded frames hold them.
use vstd::prelude::*;

use crate::wire::{MAX_FRAME, MAX_PAYLOAD, STREAM_BUF_CAP};

verus! {

#[verifier::external_type_specification]
#[verifier::external_body]
#[verifier::reject_recursive_types(T)]
pub struct ExHeaplessVec<T, const N: usize>(heapless::Vec<T, N>);

/// Relies on heapless::Vec's `Clone`, which copies the vector element by
/// element and does not panic; nothing is assumed of the copy's contents.
pub assume_specification<T, const N: usize>[ <heapless::Vec<T, N> as Clone>::clone ](
    v: &heapless::Vec<T, N>,
) -> heapless::Vec<T, N>
    where
        T: Clone,
;

/// The bytes held by a stream buffer, in order.
pub uninterp spec fn stream_bytes(v: heapless::Vec<u8, 512>) -> Seq<u8>;

/// The bytes held by a payload vector, in order.
pub uninterp spec fn payload_bytes(v: heapless::Vec<u8, 253>) -> Seq<u8>;

/// The bytes held by an outgoing frame vector, in order.
pub uninterp spec fn frame_bytes(v: heapless::Vec<u8, 259>) -> Seq<u8>;

/// Relies on heapless::Vec::new: a new vector is empty.
#[verifier::external_body]
pub(crate) fn stream_new() -> (r: heapless::Vec<u8, 512>)
    ensures
        stream_bytes(r) == Seq::<u8>::empty(),
{
    heapless::Vec::new()
}

/// Relies on heapless::Vec::as_slice: the slice holds the vector's bytes.
#[verifier::external_body]
pub(crate) fn stream_slice(v: &heapless::Vec<u8, 512>) -> (r: &[u8])
    ensures
        r@ == stream_bytes(*v),
{
    v.as_slice()
}

/// Relies on heapless::Vec::push: it appends when the length is below the
/// capacity, and otherwise hands the byte back and leaves the vector as it was.
#[verifier::external_body]
pub(crate) fn stream_push(v: &mut heapless::Vec<u8, 512>, b: u8) -> (r: bool)
    ensures
        r == (stream_bytes(*old(v)).len() < STREAM_BUF_CAP),
        r ==> stream_bytes(*final(v)) == stream_bytes(*old(v)).push(b),
        !r ==> stream_bytes(*final(v)) == stream_bytes(*old(v)),
{
    v.push(b).is_ok()
}

/// Relies on heapless::Vec::clear: afterwards the vector is empty.
#[verifier::external_body]
pub(crate) fn stream_clear(v: &mut heapless::Vec<u8, 512>)
    ensures
        stream_bytes(*final(v)) == Seq::<u8>::empty(),
{
    v.clear()
}

/// Relies on heapless::Vec::truncate: keeps the first `len` bytes, and leaves
/// the vector as it was when it is not longer than `len`.
#[verifier::external_body]
pub(crate) fn stream_truncate(v: &mut heapless::Vec<u8, 512>, len: usize)
    ensures
        len <= stream_bytes(*old(v)).len() ==> stream_bytes(*final(v)) == stream_bytes(
            *old(v),
        ).subrange(0, len as int),
        len > stream_bytes(*old(v)).len() ==> stream_bytes(*final(v)) == stream_bytes(*old(v)),
{
    v.truncate(len)
}

/// Relies on heapless::Vec's `DerefMut` to a slice: writing through it
/// replaces the byte at `i`.
#[verifier::external_body]
pub(crate) fn stream_set(v: &mut heapless::Vec<u8, 512>, i: usize, b: u8)
    requires
        i < stream_bytes(*old(v)).len(),
    ensures
        stream_bytes(*final(v)) == stream_bytes(*old(v)).update(i as int, b),
{
    v[i] = b;
}

/// Relies on heapless::Vec::from_slice: it copies the slice when it fits in
/// the capacity, and fails otherwise.
#[verifier::external_body]
pub(crate) fn payload_from_slice(s: &[u8]) -> (r: Result<heapless::Vec<u8, 253>, ()>)
    ensures
        r.is_ok() == (s@.len() <= MAX_PAYLOAD),
        r matches Ok(v) ==> payload_bytes(v) == s@,
{
    heapless::Vec::from_slice(s)
}

/// Relies on heapless::Vec::as_slice: the slice holds the vector's bytes.
#[verifier::external_body]
pub(crate) fn payload_slice(v: &heapless::Vec<u8, 253>) -> (r: &[u8])
    ensures
        r@ == payload_bytes(*v),
{
    v.as_slice()
}

/// Relies on heapless::Vec::new: a new vector is empty.
#[verifier::external_body]
pub(crate) fn payload_new() -> (r: heapless::Vec<u8, 253>)
    ensures
        payload_bytes(r) == Seq::<u8>::empty(),
{
    heapless::Vec::new()
}

/// Relies on heapless::Vec::push: it appends when the length is below the
/// capacity, and otherwise hands the byte back and leaves the vector as it was.
#[verifier::external_body]
pub(crate) fn payload_push(v: &mut heapless::Vec<u8, 253>, b: u8) -> (r: bool)
    ensures
        r == (payload_bytes(*old(v)).len() < MAX_PAYLOAD),
        r ==> payload_bytes(*final(v)) == payload_bytes(*old(v)).push(b),
        !r ==> payload_bytes(*final(v)) == payload_bytes(*old(v)),
{
    v.push(b).is_ok()
}

/// Relies on heapless::Vec::new: a new vector is empty.
#[verifier::external_body]
pub(crate) fn frame_new() -> (r: heapless::Vec<u8, 259>)
    ensures
        frame_bytes(r) == Seq::<u8>::empty(),
{
    heapless::Vec::new()
}

/// Relies on heapless::Vec::push: it appends when the length is below the
/// capacity, and otherwise hands the byte back and leaves the vector as it was.
#[verifier::external_body]
pub(crate) fn frame_push(v: &mut heapless::Vec<u8, 259>, b: u8) -> (r: bool)
    ensures
        r == (frame_bytes(*old(v)).len() < MAX_FRAME),
        r ==> frame_bytes(*final(v)) == frame_bytes(*old(v)).push(b),
        !r ==> frame_bytes(*final(v)) == frame_bytes(*old(v)),
{
    v.push(b).is_ok()
}

/// Relies on heapless::Vec::as_slice: the slice holds the vector's bytes.
#[verifier::external_body]
pub(crate) fn frame_slice(v: &heapless::Vec<u8, 259>) -> (r: &[u8])
    ensures
        r@ == frame_bytes(*v),
{
    v.as_slice()
}

} // verus!
