//! The few places where the library leans on code it does not verify: the
//! `bytes` crate's growable buffer that accumulates row payloads, and two
//! std string operations that vstd gives no specification.  Each item's
//! contract states only what the relied-on source or documentation shows.

use vstd::prelude::*;
use vstd::utf8::decode_utf8;
use vstd::utf8::valid_utf8;

verus! {

/// `bytes::BytesMut`, the growable byte buffer a row's non-null field
/// payloads are appended to.  Opaque to the verifier; specifications see
/// its contents only through [`bytes_mut_view`].
#[verifier::external_type_specification]
#[verifier::external_body]
pub struct ExBytesMut(bytes::BytesMut);

/// The bytes a `bytes::BytesMut` holds, in order.
pub uninterp spec fn bytes_mut_view(b: bytes::BytesMut) -> Seq<u8>;

/// Relies on `bytes::BytesMut::new`: the new buffer is empty.
#[verifier::external_body]
pub fn bm_new() -> (r: bytes::BytesMut)
    ensures
        bytes_mut_view(r) == Seq::<u8>::empty(),
{
    bytes::BytesMut::new()
}

/// Relies on `bytes::BytesMut::len`: the number of bytes held.
#[verifier::external_body]
pub fn bm_len(b: &bytes::BytesMut) -> (r: usize)
    ensures
        r == bytes_mut_view(*b).len(),
{
    b.len()
}

/// Relies on `bytes::BytesMut::extend_from_slice`: appends the slice's
/// bytes after the ones already held.
#[verifier::external_body]
pub fn bm_extend(b: &mut bytes::BytesMut, s: &[u8])
    ensures
        bytes_mut_view(*final(b)) == bytes_mut_view(*old(b)) + s@,
{
    b.extend_from_slice(s)
}

/// Relies on `bytes::BytesMut`'s deref to `[u8]`, which exposes the held
/// bytes as a slice; the requested range is copied out.
#[verifier::external_body]
pub fn bm_copy_range(b: &bytes::BytesMut, start: usize, end: usize) -> (r: Vec<u8>)
    requires
        start <= end <= bytes_mut_view(*b).len(),
    ensures
        r@ == bytes_mut_view(*b).subrange(start as int, end as int),
{
    b[start..end].to_vec()
}

/// Relies on `str`'s equality: two string slices compare equal exactly
/// when their character sequences are equal.
#[verifier::external_body]
pub fn str_equal(a: &str, b: &str) -> (r: bool)
    ensures
        r == (a@ == b@),
{
    a == b
}

/// Relies on `String::from_utf8`: it succeeds exactly on valid UTF-8
/// input, and the returned string's characters are the decoding of those
/// bytes.
#[verifier::external_body]
pub fn utf8_to_string(b: Vec<u8>) -> (r: Option<String>)
    ensures
        r is Some <==> valid_utf8(b@),
        r is Some ==> r.unwrap()@ == decode_utf8(b@),
{
    match String::from_utf8(b) {
        Ok(s) => Some(s),
        Err(_) => None,
    }
}

} // verus!
