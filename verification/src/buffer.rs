//! The byte buffer that requests and replies are read from.
//!
//! A buffer is a `bytes::Bytes`. To the rest of the library it is the sequence of
//! bytes that it still holds, which is what [`contents`] names; the functions below
//! are the only ones that call into the `bytes` crate.

use bytes::Buf;
use bytes::Bytes;
use vstd::prelude::*;

use crate::xdr::{hyper, word};

verus! {

/// The reference-counted byte buffer of the `bytes` crate.
#[verifier::external_type_specification]
#[verifier::external_body]
pub struct ExBytes(bytes::Bytes);

/// The bytes that a buffer still holds, in order.
pub uninterp spec fn contents(buffer: Bytes) -> Seq<u8>;

/// `Buf::remaining` of `bytes::Bytes`: the number of bytes still held.
#[verifier::external_body]
pub(crate) fn remaining(buffer: &Bytes) -> (count: usize)
    ensures
        count == contents(*buffer).len(),
{
    buffer.remaining()
}

/// `Buf::get_u32` of `bytes::Bytes`: removes the first four bytes and returns them as a
/// big-endian number. It panics on fewer than four bytes.
#[verifier::external_body]
pub(crate) fn get_u32(buffer: &mut Bytes) -> (value: u32)
    requires
        contents(*old(buffer)).len() >= 4,
    ensures
        value == word(contents(*old(buffer))),
        contents(*final(buffer)) == contents(*old(buffer)).skip(4),
{
    buffer.get_u32()
}

/// `Buf::get_u64` of `bytes::Bytes`: removes the first eight bytes and returns them as a
/// big-endian number. It panics on fewer than eight bytes.
#[verifier::external_body]
pub(crate) fn get_u64(buffer: &mut Bytes) -> (value: u64)
    requires
        contents(*old(buffer)).len() >= 8,
    ensures
        value == hyper(contents(*old(buffer))),
        contents(*final(buffer)) == contents(*old(buffer)).skip(8),
{
    buffer.get_u64()
}

/// `Buf::advance` of `bytes::Bytes`: drops the first `count` bytes. It panics when the
/// buffer holds fewer.
#[verifier::external_body]
pub(crate) fn advance(buffer: &mut Bytes, count: usize)
    requires
        count <= contents(*old(buffer)).len(),
    ensures
        contents(*final(buffer)) == contents(*old(buffer)).skip(count as int),
{
    buffer.advance(count)
}

/// `Buf::copy_to_slice` of `bytes::Bytes` into a fresh array: removes the first `N` bytes
/// and returns them. It panics when the buffer holds fewer.
#[verifier::external_body]
pub(crate) fn take_array<const N: usize>(buffer: &mut Bytes) -> (out: [u8; N])
    requires
        contents(*old(buffer)).len() >= N,
    ensures
        out@ == contents(*old(buffer)).take(N as int),
        contents(*final(buffer)) == contents(*old(buffer)).skip(N as int),
{
    let mut out = [0; N];
    buffer.copy_to_slice(&mut out);
    out
}

/// `Bytes::split_to`: removes the first `count` bytes and returns them as a buffer of
/// their own. It panics when the buffer holds fewer.
#[verifier::external_body]
pub(crate) fn split_to(buffer: &mut Bytes, count: usize) -> (head: Bytes)
    requires
        count <= contents(*old(buffer)).len(),
    ensures
        contents(head) == contents(*old(buffer)).take(count as int),
        contents(*final(buffer)) == contents(*old(buffer)).skip(count as int),
{
    buffer.split_to(count)
}

/// `Bytes::slice` over `..count`: the first `count` bytes, with the buffer left as it is.
/// It panics when the buffer holds fewer.
#[verifier::external_body]
pub(crate) fn prefix(buffer: &Bytes, count: usize) -> (head: Bytes)
    requires
        count <= contents(*buffer).len(),
    ensures
        contents(head) == contents(*buffer).take(count as int),
{
    buffer.slice(..count)
}

/// `Clone` of `bytes::Bytes`: another handle on the same bytes.
#[verifier::external_body]
pub(crate) fn duplicate(buffer: &Bytes) -> (copy: Bytes)
    ensures
        contents(copy) == contents(*buffer),
{
    buffer.clone()
}

/// `From<Vec<u8>>` of `bytes::Bytes`: a buffer that holds the bytes of the vector.
#[verifier::external_body]
pub(crate) fn from_vec(data: Vec<u8>) -> (buffer: Bytes)
    ensures
        contents(buffer) == data@,
{
    Bytes::from(data)
}

/// `Bytes::copy_from_slice`: a buffer that holds a copy of the slice.
#[verifier::external_body]
pub(crate) fn copy_from_slice(data: &[u8]) -> (buffer: Bytes)
    ensures
        contents(buffer) == data@,
{
    Bytes::copy_from_slice(data)
}

/// `AsRef<[u8]>` of `bytes::Bytes`: the bytes held, as a slice.
#[verifier::external_body]
pub(crate) fn as_slice(buffer: &Bytes) -> (data: &[u8])
    ensures
        data@ == contents(*buffer),
{
    buffer.as_ref()
}

/// `PartialEq` of `bytes::Bytes`: whether two buffers hold the same bytes.
#[verifier::external_body]
pub(crate) fn same_bytes(left: &Bytes, right: &Bytes) -> (same: bool)
    ensures
        same == (contents(*left) == contents(*right)),
{
    left == right
}

} // verus!
