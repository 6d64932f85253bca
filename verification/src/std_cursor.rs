//! Contracts for `std::io::Cursor` over a byte slice, the reference that a
//! `Cursor` over a `BufList` is held to.

use vstd::prelude::*;

use crate::buf_list::{remaining_from, ErrorKind};

verus! {

#[verifier::external_type_specification]
#[verifier::external_body]
#[verifier::reject_recursive_types(T)]
pub struct ExStdCursor<T>(std::io::Cursor<T>);

/// The bytes that a standard cursor over a byte slice reads.
pub uninterp spec fn std_cursor_bytes(c: std::io::Cursor<&[u8]>) -> Seq<u8>;

/// The position of a standard cursor over a byte slice.
pub uninterp spec fn std_cursor_position(c: std::io::Cursor<&[u8]>) -> u64;

/// Where `read_exact` leaves a standard cursor over `bytes` at position
/// `pos` when a buffer of `len` bytes cannot be filled.
pub uninterp spec fn std_read_exact_eof_position(bytes: Seq<u8>, pos: u64, len: nat) -> u64;

/// Calls `std::io::Cursor::new`, which wraps `data` in a cursor at
/// position 0 (as its documentation says).
#[verifier::external_body]
pub(crate) fn std_cursor_new<'a>(data: &'a [u8]) -> (c: std::io::Cursor<&'a [u8]>)
    ensures
        std_cursor_bytes(c) == data@,
        std_cursor_position(c) == 0,
{
    std::io::Cursor::new(data)
}

/// Calls `std::io::Cursor::set_position`, which moves the cursor to `pos`
/// and leaves the bytes it reads alone.
#[verifier::external_body]
pub(crate) fn std_cursor_set_position(c: &mut std::io::Cursor<&[u8]>, pos: u64)
    ensures
        std_cursor_bytes(*final(c)) == std_cursor_bytes(*old(c)),
        std_cursor_position(*final(c)) == pos,
{
    c.set_position(pos)
}

/// Calls `std::io::Cursor::position`, which returns the cursor's position.
#[verifier::external_body]
pub(crate) fn std_cursor_get_position(c: &std::io::Cursor<&[u8]>) -> (pos: u64)
    ensures
        pos == std_cursor_position(*c),
{
    c.position()
}

/// Calls `std::io::Read::read_exact` on the cursor and tells the error's
/// kind apart. Where fewer bytes remain than `buf` holds, the documentation
/// promises an error of kind `UnexpectedEof`; the position it leaves is
/// only named here (`std_read_exact_eof_position`), and nothing is said of
/// the outcome where enough bytes remain.
#[verifier::external_body]
pub(crate) fn std_cursor_read_exact(c: &mut std::io::Cursor<&[u8]>, buf: &mut [u8]) -> (r: Result<
    (),
    ErrorKind,
>)
    ensures
        std_cursor_bytes(*final(c)) == std_cursor_bytes(*old(c)),
        final(buf)@.len() == old(buf)@.len(),
        old(buf)@.len() > remaining_from(
            std_cursor_bytes(*old(c)).len(),
            std_cursor_position(*old(c)),
        ) ==> {
            &&& r == Err::<(), ErrorKind>(ErrorKind::UnexpectedEof)
            &&& std_cursor_position(*final(c)) == std_read_exact_eof_position(
                std_cursor_bytes(*old(c)),
                std_cursor_position(*old(c)),
                old(buf)@.len(),
            )
        },
{
    match std::io::Read::read_exact(c, buf) {
        Ok(()) => Ok(()),
        Err(e) => match e.kind() {
            std::io::ErrorKind::UnexpectedEof => Err(ErrorKind::UnexpectedEof),
            _ => Err(ErrorKind::Other),
        },
    }
}

} // verus!
