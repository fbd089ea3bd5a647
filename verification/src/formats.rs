//! The sprite format that a file extension names.

use vstd::prelude::*;
use crate::shared_types::SpriteFormat;

verus! {

/// An ASCII letter in lower case; every other byte as it is.
pub open spec fn lower(byte: u8) -> u8 {
    if 0x41 <= byte <= 0x5A {
        (byte + 0x20) as u8
    } else {
        byte
    }
}

/// Whether `text` is the three letters `a`, `b`, `c`, in either case.
pub open spec fn spells(text: Seq<u8>, a: u8, b: u8, c: u8) -> bool {
    text.len() == 3 && lower(text[0]) == a && lower(text[1]) == b && lower(text[2]) == c
}

/// The format that an extension names: `png`, `raw`, `bin` or `bmp`, in
/// either case; any other extension names none.
pub open spec fn named_format(extension: Seq<u8>) -> SpriteFormat {
    if spells(extension, 0x70, 0x6E, 0x67) {
        SpriteFormat::PNG
    } else if spells(extension, 0x72, 0x61, 0x77) {
        SpriteFormat::RAW
    } else if spells(extension, 0x62, 0x69, 0x6E) {
        SpriteFormat::BIN
    } else if spells(extension, 0x62, 0x6D, 0x70) {
        SpriteFormat::BMP
    } else {
        SpriteFormat::NONE
    }
}

fn to_lower(byte: u8) -> (low: u8)
    ensures
        low == lower(byte),
{
    if 0x41 <= byte && byte <= 0x5A {
        byte + 0x20
    } else {
        byte
    }
}

/// Tells which format an extension names.
pub fn format_of(extension: &Vec<u8>) -> (format: SpriteFormat)
    ensures
        format == named_format(extension@),
{
    if extension.len() != 3 {
        return SpriteFormat::NONE;
    }
    let a = to_lower(extension[0]);
    let b = to_lower(extension[1]);
    let c = to_lower(extension[2]);
    if a == 0x70 && b == 0x6E && c == 0x67 {
        SpriteFormat::PNG
    } else if a == 0x72 && b == 0x61 && c == 0x77 {
        SpriteFormat::RAW
    } else if a == 0x62 && b == 0x69 && c == 0x6E {
        SpriteFormat::BIN
    } else if a == 0x62 && b == 0x6D && c == 0x70 {
        SpriteFormat::BMP
    } else {
        SpriteFormat::NONE
    }
}

/// Tells whether a file with this extension, if it has one, is of the
/// given format. No file is of the format `NONE`.
pub fn type_matches(extension: Option<&Vec<u8>>, format: SpriteFormat) -> (matches: bool)
    ensures
        matches == match extension {
            Some(extension) => named_format(extension@) != SpriteFormat::NONE && named_format(
                extension@,
            ) == format,
            None => false,
        },
{
    match extension {
        Some(extension) => {
            let named = format_of(extension);
            named != SpriteFormat::NONE && named == format
        },
        None => false,
    }
}

} // verus!
