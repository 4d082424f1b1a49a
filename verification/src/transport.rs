//! The transport buffer type, `bytes::BytesMut`, declared for the
//! verifier, with its contents named as a byte sequence and a small set of
//! trusted accessors. Everything the codec proves about the wire rests on
//! these contracts.

use vstd::prelude::*;

use bytes::Buf;

verus! {

#[verifier::external_type_specification]
#[verifier::external_body]
/// `bytes::BytesMut`, the growable byte buffer the transport hands the
/// codec.
pub struct ExBytesMut(bytes::BytesMut);

/// The bytes a `BytesMut` holds, in order.
pub uninterp spec fn contents(b: bytes::BytesMut) -> Seq<u8>;

/// Relies on `BytesMut::len`: the number of bytes held.
#[verifier::external_body]
pub fn buf_len(b: &bytes::BytesMut) -> (r: usize)
    ensures
        r == contents(*b).len(),
{
    b.len()
}

/// Relies on the `Index` impl of `BytesMut` (through its deref to a byte
/// slice): the byte at the given position.
#[verifier::external_body]
pub fn buf_byte(b: &bytes::BytesMut, i: usize) -> (r: u8)
    requires
        i < contents(*b).len(),
    ensures
        r == contents(*b)[i as int],
{
    b[i]
}

/// Relies on `bytes::Buf::advance` for `BytesMut`: the first `n` bytes are
/// discarded and the rest keep their order.
#[verifier::external_body]
pub fn buf_advance(b: &mut bytes::BytesMut, n: usize)
    requires
        n <= contents(*old(b)).len(),
    ensures
        contents(*final(b)) == contents(*old(b)).skip(n as int),
{
    b.advance(n)
}

/// Relies on `BytesMut::extend_from_slice`: the given bytes are appended.
#[verifier::external_body]
pub fn buf_extend(b: &mut bytes::BytesMut, data: &[u8])
    ensures
        contents(*final(b)) == contents(*old(b)) + data@,
{
    b.extend_from_slice(data)
}

/// Relies on `slice::to_vec` (through the deref of `BytesMut` to a byte
/// slice): a copy of the held bytes.
#[verifier::external_body]
pub fn buf_to_vec(b: &bytes::BytesMut) -> (r: Vec<u8>)
    ensures
        r@ == contents(*b),
{
    b.to_vec()
}

} // verus!
