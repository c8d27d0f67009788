//! Byte buffers and big-endian integers.

use byteorder::{ReadBytesExt, WriteBytesExt, BE};
use bytes::{Buf, BufMut, Bytes, BytesMut};
use vstd::prelude::*;

verus! {

/// The lowest `width` bytes of `value`, most significant byte first.
pub open spec fn be_bytes(value: nat, width: nat) -> Seq<u8>
    decreases width,
{
    if width == 0 {
        Seq::empty()
    } else {
        be_bytes(value / 256, (width - 1) as nat).push((value % 256) as u8)
    }
}

/// The number whose bytes are `bytes`, most significant byte first.
pub open spec fn be_value(bytes: Seq<u8>) -> nat
    decreases bytes.len(),
{
    if bytes.len() == 0 {
        0
    } else {
        be_value(bytes.drop_last()) * 256 + bytes.last() as nat
    }
}

/// 256 to the power of `width`.
pub open spec fn byte_range(width: nat) -> nat
    decreases width,
{
    if width == 0 {
        1
    } else {
        byte_range((width - 1) as nat) * 256
    }
}

/// A number is encoded by as many bytes as requested.
pub proof fn lemma_be_bytes_len(value: nat, width: nat)
    ensures
        be_bytes(value, width).len() == width,
    decreases width,
{
    if width > 0 {
        lemma_be_bytes_len(value / 256, (width - 1) as nat);
    }
}

/// Decoding the bytes of a number that fits gives back the number.
pub proof fn law_be_roundtrip(value: nat, width: nat)
    requires
        value < byte_range(width),
    ensures
        be_bytes(value, width).len() == width,
        be_value(be_bytes(value, width)) == value,
    decreases width,
{
    if width > 0 {
        let upper = be_bytes(value / 256, (width - 1) as nat);
        law_be_roundtrip(value / 256, (width - 1) as nat);
        assert(be_bytes(value, width).drop_last() =~= upper);
    }
}

/// The ranges of the integer types.
pub proof fn lemma_byte_ranges()
    ensures
        byte_range(1) == 0x100,
        byte_range(2) == 0x1_0000,
        byte_range(4) == 0x1_0000_0000,
        byte_range(16) == 0x1_0000_0000_0000_0000_0000_0000_0000_0000,
{
    reveal_with_fuel(byte_range, 17);
}

/// An immutable byte buffer of the `bytes` crate.
#[verifier::external_type_specification]
#[verifier::external_body]
pub struct ExBytes(Bytes);

/// A growable byte buffer of the `bytes` crate.
#[verifier::external_type_specification]
#[verifier::external_body]
pub struct ExBytesMut(BytesMut);

/// The bytes an immutable buffer holds.
pub uninterp spec fn content(buf: Bytes) -> Seq<u8>;

/// The unread bytes a growable buffer holds.
pub uninterp spec fn mut_content(buf: BytesMut) -> Seq<u8>;

/// `Bytes::len` returns the number of bytes in the buffer.
pub assume_specification[ Bytes::len ](buf: &Bytes) -> (r: usize)
    ensures
        r == content(*buf).len(),
;

/// `Bytes::clone` hands out another handle to the same immutable bytes.
///
/// A buffer is told apart from another one by nothing but its bytes,
/// thus the clone is the same value.
pub assume_specification[ <Bytes as Clone>::clone ](buf: &Bytes) -> (r: Bytes)
    ensures
        r == *buf,
;

/// `Bytes::from` turns a vector into a buffer with the same bytes.
#[verifier::external_body]
pub(crate) fn bytes_from_vec(v: Vec<u8>) -> (r: Bytes)
    ensures
        content(r) == v@,
{
    Bytes::from(v)
}

/// `Bytes::as_ref` gives access to the bytes of the buffer.
#[verifier::external_body]
pub(crate) fn bytes_as_slice(buf: &Bytes) -> (r: &[u8])
    ensures
        r@ == content(*buf),
{
    buf.as_ref()
}

/// `Bytes::split_to` removes the first `at` bytes from the buffer and returns them.
///
/// It panics if `at` is past the end of the buffer.
pub assume_specification[ Bytes::split_to ](buf: &mut Bytes, at: usize) -> (r: Bytes)
    requires
        at <= content(*old(buf)).len(),
    ensures
        content(r) == content(*old(buf)).take(at as int),
        content(*final(buf)) == content(*old(buf)).skip(at as int),
;

/// `BytesMut::len` returns the number of unread bytes.
pub assume_specification[ BytesMut::len ](buf: &BytesMut) -> (r: usize)
    ensures
        r == mut_content(*buf).len(),
;

/// `BytesMut::split_to` removes the first `at` bytes from the buffer and returns them.
///
/// It panics if `at` is past the end of the buffer.
pub assume_specification[ BytesMut::split_to ](buf: &mut BytesMut, at: usize) -> (r: BytesMut)
    requires
        at <= mut_content(*old(buf)).len(),
    ensures
        mut_content(r) == mut_content(*old(buf)).take(at as int),
        mut_content(*final(buf)) == mut_content(*old(buf)).skip(at as int),
;

/// `BytesMut::reserve` makes room for more bytes and leaves the held bytes unchanged.
///
/// It panics if it has to allocate and the requested capacity exceeds `isize::MAX`.
pub assume_specification[ BytesMut::reserve ](buf: &mut BytesMut, additional: usize)
    requires
        additional == 0 || mut_content(*old(buf)).len() + additional <= isize::MAX,
    ensures
        mut_content(*final(buf)) == mut_content(*old(buf)),
;

/// `BytesMut::extend_from_slice` appends the bytes of the slice.
///
/// It panics if the resulting length exceeds `isize::MAX`.
pub assume_specification[ BytesMut::extend_from_slice ](buf: &mut BytesMut, extend: &[u8])
    requires
        mut_content(*old(buf)).len() + extend@.len() <= isize::MAX,
    ensures
        mut_content(*final(buf)) == mut_content(*old(buf)) + extend@,
;

/// `BytesMut::as_ref` gives access to the unread bytes of the buffer.
#[verifier::external_body]
pub(crate) fn mut_as_slice(buf: &BytesMut) -> (r: &[u8])
    ensures
        r@ == mut_content(*buf),
{
    buf.as_ref()
}

/// `Buf::get_u32` takes a big-endian number from the front of the buffer.
///
/// It panics if the buffer holds less than four bytes.
#[verifier::external_body]
pub(crate) fn get_u32(buf: &mut BytesMut) -> (r: u32)
    requires
        mut_content(*old(buf)).len() >= 4,
    ensures
        r == be_value(mut_content(*old(buf)).take(4)),
        mut_content(*final(buf)) == mut_content(*old(buf)).skip(4),
{
    buf.get_u32()
}

/// `Buf::get_u16` takes a big-endian number from the front of the buffer.
///
/// It panics if the buffer holds less than two bytes.
#[verifier::external_body]
pub(crate) fn get_u16(buf: &mut BytesMut) -> (r: u16)
    requires
        mut_content(*old(buf)).len() >= 2,
    ensures
        r == be_value(mut_content(*old(buf)).take(2)),
        mut_content(*final(buf)) == mut_content(*old(buf)).skip(2),
{
    buf.get_u16()
}

/// `BufMut::put_u32` appends the four big-endian bytes of a number.
///
/// It panics if the resulting length exceeds `isize::MAX`.
#[verifier::external_body]
pub(crate) fn put_u32(buf: &mut BytesMut, n: u32)
    requires
        mut_content(*old(buf)).len() + 4 <= isize::MAX,
    ensures
        mut_content(*final(buf)) == mut_content(*old(buf)) + be_bytes(n as nat, 4),
{
    buf.put_u32(n)
}

/// `BufMut::put_u16` appends the two big-endian bytes of a number.
///
/// It panics if the resulting length exceeds `isize::MAX`.
#[verifier::external_body]
pub(crate) fn put_u16(buf: &mut BytesMut, n: u16)
    requires
        mut_content(*old(buf)).len() + 2 <= isize::MAX,
    ensures
        mut_content(*final(buf)) == mut_content(*old(buf)) + be_bytes(n as nat, 2),
{
    buf.put_u16(n)
}

/// `WriteBytesExt::write_u8` appends one byte to a vector, which never fails.
#[verifier::external_body]
pub(crate) fn write_u8(buf: &mut Vec<u8>, n: u8)
    ensures
        final(buf)@ == old(buf)@.push(n),
{
    buf.write_u8(n).unwrap()
}

/// `WriteBytesExt::write_u16` appends two big-endian bytes to a vector, which never fails.
#[verifier::external_body]
pub(crate) fn write_u16(buf: &mut Vec<u8>, n: u16)
    ensures
        final(buf)@ == old(buf)@ + be_bytes(n as nat, 2),
{
    buf.write_u16::<BE>(n).unwrap()
}

/// `WriteBytesExt::write_u32` appends four big-endian bytes to a vector, which never fails.
#[verifier::external_body]
pub(crate) fn write_u32(buf: &mut Vec<u8>, n: u32)
    ensures
        final(buf)@ == old(buf)@ + be_bytes(n as nat, 4),
{
    buf.write_u32::<BE>(n).unwrap()
}

/// `WriteBytesExt::write_u128` appends sixteen big-endian bytes to a vector, which never fails.
#[verifier::external_body]
pub(crate) fn write_u128(buf: &mut Vec<u8>, n: u128)
    ensures
        final(buf)@ == old(buf)@ + be_bytes(n as nat, 16),
{
    buf.write_u128::<BE>(n).unwrap()
}

/// The `n` bytes of `bytes` from position `pos`, if it holds that many.
pub open spec fn bytes_at(bytes: Seq<u8>, pos: int, n: int) -> Option<Seq<u8>> {
    if pos + n <= bytes.len() {
        Some(bytes.subrange(pos, pos + n))
    } else {
        None
    }
}

/// The big-endian number of `n` bytes of `bytes` from position `pos`, if it holds that many.
pub open spec fn value_at(bytes: Seq<u8>, pos: int, n: int) -> Option<nat> {
    if pos + n <= bytes.len() {
        Some(be_value(bytes.subrange(pos, pos + n)))
    } else {
        None
    }
}

/// `ReadBytesExt::read_u8` reads the next byte and fails at the end of the input.
#[verifier::external_body]
pub(crate) fn read_u8(bytes: &[u8], pos: usize) -> (r: Option<u8>)
    requires
        pos <= bytes@.len(),
    ensures
        r is Some <==> pos + 1 <= bytes@.len(),
        r is Some ==> r->0 == bytes@[pos as int],
{
    (&bytes[pos..]).read_u8().ok()
}

/// `ReadBytesExt::read_u16` reads two big-endian bytes and fails if the input is too short.
#[verifier::external_body]
pub(crate) fn read_u16(bytes: &[u8], pos: usize) -> (r: Option<u16>)
    requires
        pos <= bytes@.len(),
    ensures
        r is Some <==> value_at(bytes@, pos as int, 2) is Some,
        r is Some ==> r->0 == value_at(bytes@, pos as int, 2)->0,
{
    (&bytes[pos..]).read_u16::<BE>().ok()
}

/// `ReadBytesExt::read_u32` reads four big-endian bytes and fails if the input is too short.
#[verifier::external_body]
pub(crate) fn read_u32(bytes: &[u8], pos: usize) -> (r: Option<u32>)
    requires
        pos <= bytes@.len(),
    ensures
        r is Some <==> value_at(bytes@, pos as int, 4) is Some,
        r is Some ==> r->0 == value_at(bytes@, pos as int, 4)->0,
{
    (&bytes[pos..]).read_u32::<BE>().ok()
}

/// `ReadBytesExt::read_u128` reads sixteen big-endian bytes and fails if the input is too short.
#[verifier::external_body]
pub(crate) fn read_u128(bytes: &[u8], pos: usize) -> (r: Option<u128>)
    requires
        pos <= bytes@.len(),
    ensures
        r is Some <==> value_at(bytes@, pos as int, 16) is Some,
        r is Some ==> r->0 == value_at(bytes@, pos as int, 16)->0,
{
    (&bytes[pos..]).read_u128::<BE>().ok()
}

/// The `n` bytes from position `pos`, if there are that many.
pub(crate) fn read_bytes(bytes: &[u8], pos: usize, n: usize) -> (r: Option<Vec<u8>>)
    requires
        pos <= bytes@.len(),
    ensures
        r is Some <==> bytes_at(bytes@, pos as int, n as int) is Some,
        r is Some ==> r->0@ == bytes_at(bytes@, pos as int, n as int)->0,
{
    if n > bytes.len() - pos {
        return None;
    }
    let mut out: Vec<u8> = Vec::with_capacity(n);
    let mut i: usize = 0;
    while i < n
        invariant
            i <= n,
            pos + n <= bytes@.len() <= usize::MAX,
            out@ == bytes@.subrange(pos as int, pos + i),
        decreases n - i,
    {
        out.push(bytes[pos + i]);
        assert(bytes@.subrange(pos as int, pos + i + 1) =~= bytes@.subrange(pos as int, pos + i).push(
            bytes@[pos + i],
        ));
        i += 1;
    }
    Some(out)
}

/// Appends the bytes of a slice to a vector.
pub(crate) fn write_all(buf: &mut Vec<u8>, bytes: &[u8])
    ensures
        final(buf)@ == old(buf)@ + bytes@,
{
    let mut i: usize = 0;
    assert(buf@ =~= old(buf)@ + bytes@.take(0));
    while i < bytes.len()
        invariant
            i <= bytes@.len(),
            buf@ == old(buf)@ + bytes@.take(i as int),
        decreases bytes@.len() - i,
    {
        buf.push(bytes[i]);
        i += 1;
        assert(buf@ =~= old(buf)@ + bytes@.take(i as int));
    }
    assert(bytes@.take(i as int) =~= bytes@);
}

} // verus!
