//! The decisions around the system's two-call code-page conversions: first
//! measure, then convert into a buffer of the measured size.  The calls
//! themselves are the system's; these functions take what they reported.

use vstd::prelude::*;
use crate::utf16::{decode_utf16, utf16_decode};

verus! {

/// Conversion to the ANSI code page without the system: an empty text
/// converts to no bytes; any other text needs the system (`None`).
pub fn ansi_without_system(s: &str) -> (r: Option<Vec<u8>>)
    ensures
        r is Some <==> s@.len() == 0,
        r matches Some(v) ==> v@.len() == 0,
{
    if s.is_empty() {
        Some(Vec::new())
    } else {
        None
    }
}

/// Conversion from the ANSI code page without the system: no bytes convert
/// to the empty text; any other input needs the system (`None`).
pub fn utf8_without_system(bytes: &[u8]) -> (r: Option<String>)
    ensures
        r is Some <==> bytes@.len() == 0,
        r matches Some(s) ==> s@.len() == 0,
{
    if bytes.len() == 0 {
        Some(String::new())
    } else {
        None
    }
}

/// The buffer length to convert into, from the size the measuring call
/// reported: `None` when it reported failure (zero or less).
pub fn conversion_capacity(size_needed: i32) -> (r: Option<usize>)
    ensures
        r is Some <==> size_needed > 0,
        r matches Some(n) ==> n == size_needed,
{
    if size_needed <= 0 {
        None
    } else {
        Some(size_needed as usize)
    }
}

/// The bytes converted to the ANSI code page, from what the converting call
/// reported: the buffer when it reported success (more than zero), else
/// `None`.
pub fn ansi_conversion_result(written: i32, buffer: Vec<u8>) -> (r: Option<Vec<u8>>)
    ensures
        r is Some <==> written > 0,
        r matches Some(v) ==> v@ == buffer@,
{
    if written <= 0 {
        None
    } else {
        Some(buffer)
    }
}

/// The text converted from the ANSI code page, from what the converting
/// call reported: `None` when it reported failure (zero or less) or when the
/// UTF-16 it wrote is not well formed, else that UTF-16 decoded.
pub fn utf8_conversion_result(written: i32, buffer: &[u16]) -> (r: Option<String>)
    ensures
        r is Some <==> (written > 0 && utf16_decode(buffer@) is Some),
        r matches Some(s) ==> utf16_decode(buffer@) == Some(s@),
{
    if written <= 0 {
        None
    } else {
        decode_utf16(buffer)
    }
}

} // verus!
