//! Bounds-checked, panic-free extraction of byte windows from a buffer.
use vstd::prelude::*;
use vstd::slice::slice_subrange;

use crate::error::Error;

verus! {

/// The window `[offset, offset + width)` lies within a buffer of `len` bytes.
pub open spec fn window_fits(offset: int, width: int, len: int) -> bool {
    offset + width <= len
}

/// The bytes of `frame` in the window `[offset, offset + width)`.
pub open spec fn window(frame: Seq<u8>, offset: int, width: int) -> Seq<u8> {
    frame.subrange(offset, offset + width)
}

/// Returns the `extract_bytes` bytes of `frame` that start at `offset`, or
/// `InvalidSlicingLength` when they do not all lie within `frame`.
pub fn extract_offset_by<'a>(
    offset: usize,
    frame: &'a [u8],
    extract_bytes: usize,
) -> (r: Result<&'a [u8], Error>)
    ensures
        window_fits(offset as int, extract_bytes as int, frame@.len() as int) <==> r is Ok,
        r is Ok ==> r.unwrap()@ == window(frame@, offset as int, extract_bytes as int),
        !window_fits(offset as int, extract_bytes as int, frame@.len() as int) ==> r
            == Err::<&[u8], Error>(Error::InvalidSlicingLength),
{
    if offset > frame.len() || extract_bytes > frame.len() - offset {
        return Err(Error::InvalidSlicingLength);
    }
    Ok(slice_subrange(frame, offset, offset + extract_bytes))
}

/// Returns the `size_of::<T>()` bytes of `frame` that start at `offset`, or
/// `InvalidSlicingLength` when they do not all lie within `frame`.
pub fn extract_offset<'a, T: Sized>(offset: usize, frame: &'a [u8]) -> (r: Result<&'a [u8], Error>)
    ensures
        window_fits(offset as int, size_of::<T>() as int, frame@.len() as int) ==> (r is Ok
            && r.unwrap()@ == window(frame@, offset as int, size_of::<T>() as int)),
        !window_fits(offset as int, size_of::<T>() as int, frame@.len() as int) ==> r
            == Err::<&[u8], Error>(Error::InvalidSlicingLength),
{
    let extract_bytes = core::mem::size_of::<T>();
    extract_offset_by(offset, frame, extract_bytes)
}

/// Returns the `extract_bytes` bytes of `frame` that start at the cursor and
/// moves the cursor past them. When they do not all lie within `frame`, fails
/// with `InvalidSlicingLength` and leaves the cursor where it was.
pub fn advance_token_by<'a>(
    offset: &'a mut usize,
    frame: &'a [u8],
    extract_bytes: usize,
) -> (r: Result<&'a [u8], Error>)
    ensures
        window_fits(*old(offset) as int, extract_bytes as int, frame@.len() as int) ==> (r is Ok
            && r.unwrap()@ == window(frame@, *old(offset) as int, extract_bytes as int)
            && *final(offset) == *old(offset) + extract_bytes),
        !window_fits(*old(offset) as int, extract_bytes as int, frame@.len() as int) ==> (r
            == Err::<&[u8], Error>(Error::InvalidSlicingLength) && *final(offset) == *old(
            offset,
        )),
{
    let len = frame.len();
    match extract_offset_by(*offset, frame, extract_bytes) {
        Ok(slice) => {
            assert(*offset + extract_bytes <= len);
            *offset = *offset + extract_bytes;
            Ok(slice)
        },
        Err(e) => Err(e),
    }
}

/// Returns the `size_of::<T>()` bytes of `frame` that start at the cursor and
/// moves the cursor past them. When they do not all lie within `frame`, fails
/// with `InvalidSlicingLength` and leaves the cursor where it was.
pub fn advance_token<'a, T: Sized>(offset: &'a mut usize, frame: &'a [u8]) -> (r: Result<
    &'a [u8],
    Error,
>)
    ensures
        window_fits(*old(offset) as int, size_of::<T>() as int, frame@.len() as int) ==> (r is Ok
            && r.unwrap()@ == window(frame@, *old(offset) as int, size_of::<T>() as int)
            && *final(offset) == *old(offset) + size_of::<T>()),
        !window_fits(*old(offset) as int, size_of::<T>() as int, frame@.len() as int) ==> (r
            == Err::<&[u8], Error>(Error::InvalidSlicingLength) && *final(offset) == *old(
            offset,
        )),
{
    let extract_bytes = core::mem::size_of::<T>();
    advance_token_by(offset, frame, extract_bytes)
}

} // verus!
