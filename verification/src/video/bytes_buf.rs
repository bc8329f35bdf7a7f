use vstd::prelude::*;
use bytes::BytesMut;

verus! {

#[verifier::external_type_specification]
#[verifier::external_body]
pub struct ExBytesMut(BytesMut);

/// The bytes a `BytesMut` holds.
pub uninterp spec fn bytes_mut_contents(b: BytesMut) -> Seq<u8>;

/// `BytesMut::new`: an empty buffer.
#[verifier::external_body]
pub(crate) fn bytes_new() -> (r: BytesMut)
    ensures
        bytes_mut_contents(r) == Seq::<u8>::empty(),
{
    BytesMut::new()
}

/// `BytesMut::with_capacity`: an empty buffer with room for `capacity` bytes (a capacity over
/// `isize::MAX` would make the allocation panic).
#[verifier::external_body]
pub(crate) fn bytes_with_capacity(capacity: usize) -> (r: BytesMut)
    requires
        capacity <= isize::MAX,
    ensures
        bytes_mut_contents(r) == Seq::<u8>::empty(),
{
    BytesMut::with_capacity(capacity)
}

/// `BytesMut::len`: the number of bytes held.
#[verifier::external_body]
pub(crate) fn bytes_len(b: &BytesMut) -> (r: usize)
    ensures
        r == bytes_mut_contents(*b).len(),
{
    b.len()
}

/// `BytesMut::extend_from_slice`: appends `data` (the buffer grows as needed; growth past
/// `isize::MAX` bytes would panic).
#[verifier::external_body]
pub(crate) fn bytes_extend(b: &mut BytesMut, data: &[u8])
    requires
        bytes_mut_contents(*old(b)).len() + data@.len() <= isize::MAX,
    ensures
        bytes_mut_contents(*final(b)) == bytes_mut_contents(*old(b)) + data@,
{
    b.extend_from_slice(data)
}

/// `BytesMut::split`: hands out all bytes held and leaves the buffer empty.
#[verifier::external_body]
pub(crate) fn bytes_split(b: &mut BytesMut) -> (r: BytesMut)
    ensures
        bytes_mut_contents(r) == bytes_mut_contents(*old(b)),
        bytes_mut_contents(*final(b)) == Seq::<u8>::empty(),
{
    b.split()
}

/// `Deref` of `BytesMut`: the bytes held, as a slice.
#[verifier::external_body]
pub(crate) fn bytes_as_slice(b: &BytesMut) -> (r: &[u8])
    ensures
        r@ == bytes_mut_contents(*b),
{
    b.as_ref()
}

/// `DerefMut` of `BytesMut`: the bytes held, to be changed in place; the buffer then holds
/// what the slice holds when the borrow ends.
#[verifier::external_body]
pub(crate) fn bytes_as_mut_slice(b: &mut BytesMut) -> (r: &mut [u8])
    ensures
        r@ == bytes_mut_contents(*old(b)),
        bytes_mut_contents(*final(b)) == final(r)@,
{
    b.as_mut()
}

} // verus!
