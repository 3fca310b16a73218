//! The glyph tables of the `font8x8` crate, as the display reads them.
//!
//! Each glyph is eight rows of eight pixels; in a row, bit `n` (counting
//! from the least significant bit) is the pixel `n` places from the left.

use vstd::prelude::*;

verus! {

/// The eight rows of the `font8x8` legacy glyph for the basic-latin code
/// point `code` (`U+0000..=U+007F`).
pub uninterp spec fn basic_legacy_rows(code: usize) -> Seq<u8>;

/// The eight rows of the `font8x8` legacy glyph for the latin-1 code point
/// `U+00A0 + offset` (`offset` in `0..96`).
pub uninterp spec fn latin_legacy_rows(offset: usize) -> Seq<u8>;

/// Reads entry `code` of the constant table `font8x8::legacy::BASIC_LEGACY`.
/// The table is fixed data, so the rows depend on `code` alone; which rows
/// they are is left to the name `basic_legacy_rows`.
#[verifier::external_body]
pub(crate) fn basic_legacy(code: usize) -> (rows: [u8; 8])
    requires
        code < 128,
    ensures
        rows@ == basic_legacy_rows(code),
{
    font8x8::legacy::BASIC_LEGACY[code]
}

/// Reads entry `offset` of the constant table `font8x8::legacy::LATIN_LEGACY`,
/// whose entries cover `U+00A0..=U+00FF`. The rows depend on `offset` alone;
/// which rows they are is left to the name `latin_legacy_rows`.
#[verifier::external_body]
pub(crate) fn latin_legacy(offset: usize) -> (rows: [u8; 8])
    requires
        offset < 96,
    ensures
        rows@ == latin_legacy_rows(offset),
{
    font8x8::legacy::LATIN_LEGACY[offset]
}

} // verus!
