//! Writing edited data back into a caller's buffer, in place of what a
//! WinHttp call returned (header text as a wide string, body data as a C
//! string).
use vstd::prelude::*;
use vstd::utf8::encode_utf8;
use crate::utf16::{units_le_bytes, utf16_encode};
use crate::values::{c_string_bytes, c_string_prefix, take_at_most, wide_string_bytes, wide_string_units};

verus! {

/// The smaller of two lengths.
pub open spec fn min_len(a: int, b: int) -> int {
    if a <= b {
        a
    } else {
        b
    }
}

/// The bytes written for a text copied as a wide string into a buffer of
/// `max_len` code units, and their number.
pub open spec fn wide_copy_bytes(source: Seq<char>, max_len: int) -> Seq<u8> {
    units_le_bytes(take_at_most(wide_string_units(source), max_len))
}

/// A text copied as a wide string fills the buffer with its first UTF-16
/// code units and the NUL unit, as many as fit and never more, each unit as
/// two little-endian bytes.
pub proof fn lemma_wide_copy_fits(source: Seq<char>, max_len: int)
    requires
        0 <= max_len,
    ensures
        wide_copy_bytes(source, max_len).len() == 2 * min_len(utf16_encode(source).len() + 1int, max_len),
        wide_copy_bytes(source, max_len) == units_le_bytes(
            utf16_encode(source).push(0u16).take(min_len(utf16_encode(source).len() + 1int, max_len)),
        ),
{
    let w = wide_string_units(source);
    assert(w.take(w.len() as int) =~= w);
}

/// Copies a text as a NUL-terminated wide string into a buffer of
/// `max_len` code units: the bytes to write, cut to the buffer, and their
/// number.
pub fn copy_wide(source: &str, max_len: usize) -> (out: (Vec<u8>, u32))
    requires
        wide_copy_bytes(source@, max_len as int).len() <= u32::MAX,
    ensures
        out.0@ == wide_copy_bytes(source@, max_len as int),
        out.1 as int == out.0@.len(),
        out.1 <= 2 * max_len,
        out.0@ == units_le_bytes(
            utf16_encode(source@).push(0u16).take(min_len(utf16_encode(source@).len() + 1int, max_len as int)),
        ),
{
    proof {
        lemma_wide_copy_fits(source@, max_len as int);
    }
    let bytes = wide_string_bytes(source, max_len);
    let n = bytes.len() as u32;
    (bytes, n)
}

/// The bytes written for a text copied as a C string into a buffer of
/// `max_len` bytes: none where the text holds a NUL.
pub open spec fn narrow_copy_bytes(source: Seq<char>, max_len: int) -> Seq<u8> {
    if encode_utf8(source).contains(0u8) {
        seq![]
    } else {
        take_at_most(c_string_bytes(source), max_len)
    }
}

/// A text copied as a C string fills the buffer with the first bytes of
/// its UTF-8 encoding and the NUL, as many as fit and never more: the
/// copy's length is the smaller of the buffer's and the C string's length
/// in bytes.
pub proof fn lemma_narrow_copy_fits(source: Seq<char>, max_len: int)
    requires
        0 <= max_len,
    ensures
        narrow_copy_bytes(source, max_len).len() <= max_len,
        !encode_utf8(source).contains(0u8) ==> narrow_copy_bytes(source, max_len) == c_string_bytes(
            source,
        ).take(min_len(encode_utf8(source).len() + 1int, max_len)),
{
    let c = c_string_bytes(source);
    assert(c.len() == encode_utf8(source).len() + 1);
    assert(c.take(c.len() as int) =~= c);
}

/// Copies a text as a NUL-terminated C string into a buffer of `max_len`
/// bytes: the bytes to write, cut to the buffer, and their number; nothing,
/// and 0, where the text holds a NUL.
pub fn copy_narrow(source: &str, max_len: usize) -> (out: (Vec<u8>, u32))
    requires
        narrow_copy_bytes(source@, max_len as int).len() <= u32::MAX,
    ensures
        out.0@ == narrow_copy_bytes(source@, max_len as int),
        out.1 as int == out.0@.len(),
        out.1 <= max_len,
        !encode_utf8(source@).contains(0u8) ==> out.0@ == c_string_bytes(source@).take(
            min_len(encode_utf8(source@).len() + 1int, max_len as int),
        ),
{
    proof {
        lemma_narrow_copy_fits(source@, max_len as int);
    }
    match c_string_prefix(source, max_len) {
        Some(bytes) => {
            let n = bytes.len() as u32;
            (bytes, n)
        },
        None => (Vec::new(), 0),
    }
}

} // verus!
