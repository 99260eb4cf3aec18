//! The byte buffer that frames are written to and read from.
//!
//! `bytes::BytesMut` does the buffering. What is claimed of it here speaks of
//! the bytes it holds and of nothing else: how much it has allocated shows
//! nowhere.

use bytes::{Buf, BufMut, BytesMut};
use vstd::prelude::*;

verus! {

/// `bytes::BytesMut`, a growable buffer of bytes that is consumed from the
/// front.
#[verifier::external_type_specification]
#[verifier::external_body]
pub struct ExBytesMut(BytesMut);

/// The unread bytes that a buffer holds.
pub uninterp spec fn contents(buffer: BytesMut) -> Seq<u8>;

/// Whether `n` more bytes can be held by a buffer that holds `held` bytes: no
/// allocation can exceed `isize::MAX` bytes.
pub open spec fn has_room(held: nat, n: nat) -> bool {
    held + n <= isize::MAX
}

/// Whether a buffer that holds `held` bytes can take `n` more, whatever it has
/// allocated.
///
/// A buffer that has to grow may ask for up to four times what it then holds:
/// twice for the bytes already read that still lie in front of the contents,
/// and twice again for growing by doubling.
pub open spec fn can_grow(held: nat, n: nat) -> bool {
    held + n <= isize::MAX / 4
}

/// `BufMut::put_slice` on a `BytesMut`: the bytes of `src` go behind the
/// contents, in order. It panics where the buffer cannot grow, which `requires`
/// rules out.
#[verifier::external_body]
fn put_slice(buffer: &mut BytesMut, src: &[u8])
    requires
        can_grow(contents(*old(buffer)).len(), src@.len()),
    ensures
        contents(*final(buffer)) == contents(*old(buffer)) + src@,
{
    buffer.put_slice(src)
}

/// `From<&[u8]>` for `BytesMut`: a new buffer that holds these bytes.
#[verifier::external_body]
fn from_slice(src: &[u8]) -> (r: BytesMut)
    ensures
        contents(r) == src@,
{
    BytesMut::from(src)
}

/// `Buf::chunk` on a `BytesMut`: the contents, all of them, as one slice.
#[verifier::external_body]
pub(crate) fn chunk(buffer: &BytesMut) -> (r: &[u8])
    ensures
        r@ == contents(*buffer),
{
    buffer.chunk()
}

/// `Buf::advance` on a `BytesMut`: the first `cnt` bytes of the contents are
/// gone. It panics where there are fewer, which `requires` rules out.
#[verifier::external_body]
pub(crate) fn advance(buffer: &mut BytesMut, cnt: usize)
    requires
        cnt <= contents(*old(buffer)).len(),
    ensures
        contents(*final(buffer)) == contents(*old(buffer)).skip(cnt as int),
{
    buffer.advance(cnt)
}

/// Puts the bytes of `src` behind those of `bytes`.
pub(crate) fn extend(bytes: &mut Vec<u8>, src: &[u8])
    ensures
        final(bytes)@ == old(bytes)@ + src@,
{
    bytes.extend_from_slice(src);
    assert(bytes@ =~= old(bytes)@ + src@);
}

/// Puts the bytes of `src` behind the contents.
pub(crate) fn append(buffer: &mut BytesMut, src: &[u8])
    requires
        has_room(contents(*old(buffer)).len(), src@.len()),
    ensures
        contents(*final(buffer)) == contents(*old(buffer)) + src@,
{
    let held = chunk(buffer).len();
    if held + src.len() <= isize::MAX as usize / 4 {
        put_slice(buffer, src);
    } else {
        // Growing by doubling could ask for more than can be allocated, so a
        // buffer of just the right size takes the place of this one
        let mut all: Vec<u8> = Vec::with_capacity(held + src.len());
        extend(&mut all, chunk(buffer));
        extend(&mut all, src);
        assert(all@ =~= contents(*old(buffer)) + src@);
        *buffer = from_slice(all.as_slice());
    }
}

} // verus!
