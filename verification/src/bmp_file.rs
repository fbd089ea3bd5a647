//! The headers of a BMP file, as `bmp_rust` reads them.
//!
//! The contracts of the functions that call into `bmp_rust` are taken on
//! trust. They say which files its header readers accept and what they
//! find in them.

use vstd::prelude::*;
use bmp_rust::bmp::BMP;

verus! {

/// `bmp_rust::bmp::BMP`: a BMP file held as its bytes.
#[verifier::external_type_specification]
#[verifier::external_body]
pub struct ExBMP(BMP);

/// The bytes that a `BMP` holds.
pub uninterp spec fn bmp_contents(bmp: BMP) -> Seq<u8>;

/// The fields of the second header of a BMP file that the library reads.
pub struct DibHeader {
    pub size: u32,
    pub width: u32,
    pub height: i32,
    pub bitcount: u16,
    pub compression: Option<String>,
    pub clr_used: Option<u32>,
}

/// The mathematical value of a `DibHeader`.
pub struct DibView {
    pub size: u32,
    pub width: u32,
    pub height: i32,
    pub bitcount: u16,
    pub compression: Option<Seq<char>>,
    pub clr_used: Option<u32>,
}

impl View for DibHeader {
    type V = DibView;

    open spec fn view(&self) -> DibView {
        DibView {
            size: self.size,
            width: self.width,
            height: self.height,
            bitcount: self.bitcount,
            compression: match self.compression {
                Some(name) => Some(name@),
                None => None,
            },
            clr_used: self.clr_used,
        }
    }
}

/// The view of an optional header.
pub open spec fn dib_view(header: Option<DibHeader>) -> Option<DibView> {
    match header {
        Some(header) => Some(header@),
        None => None,
    }
}

/// The unsigned 16-bit number stored at `at`, lowest byte first.
pub open spec fn le_u16_at(bytes: Seq<u8>, at: int) -> u16 {
    (bytes[at] as int + 0x100 * bytes[at + 1] as int) as u16
}

/// The unsigned 32-bit number stored at `at`, lowest byte first.
pub open spec fn le_u32_at(bytes: Seq<u8>, at: int) -> u32 {
    (bytes[at] as int + 0x100 * bytes[at + 1] as int + 0x1_0000 * bytes[at + 2] as int
        + 0x100_0000 * bytes[at + 3] as int) as u32
}

/// The signed 16-bit number stored at `at`, in two's complement.
pub open spec fn le_i16_at(bytes: Seq<u8>, at: int) -> int {
    let raw = le_u16_at(bytes, at) as int;
    if raw >= 0x8000 {
        raw - 0x1_0000
    } else {
        raw
    }
}

/// The signed 32-bit number stored at `at`, in two's complement.
pub open spec fn le_i32_at(bytes: Seq<u8>, at: int) -> int {
    let raw = le_u32_at(bytes, at) as int;
    if raw >= 0x8000_0000 {
        raw - 0x1_0000_0000
    } else {
        raw
    }
}

/// The name that `bmp_rust` gives to a compression method.
pub open spec fn compression_name(code: u32) -> Seq<char> {
    if code == 0 {
        "BI_RGB"@
    } else if code == 1 {
        "BI_RLE8"@
    } else if code == 2 {
        "BI_RLE4"@
    } else if code == 3 {
        "BI_BITFIELDS"@
    } else if code == 4 {
        "BI_JPEG"@
    } else if code == 5 {
        "BI_PNG"@
    } else {
        "BI_ALPHABITFIELDS"@
    }
}

/// Whether the second header of a file can be read: the file holds the
/// size of the header and, where the size is one of the four known, the
/// whole header, with a known compression method and, in the longest
/// header, a known rendering intent.
pub open spec fn dib_readable(bytes: Seq<u8>) -> bool {
    &&& bytes.len() >= 18
    &&& le_u32_at(bytes, 14) == 12 ==> bytes.len() >= 26
    &&& le_u32_at(bytes, 14) == 40 ==> bytes.len() >= 54 && le_u32_at(bytes, 30) <= 6
    &&& le_u32_at(bytes, 14) == 108 ==> bytes.len() >= 122 && le_u32_at(bytes, 30) <= 6
    &&& le_u32_at(bytes, 14) == 124 ==> bytes.len() >= 138 && le_u32_at(bytes, 30) <= 6
        && le_u32_at(bytes, 122) <= 4
}

/// What the second header of a file holds, if its size is one of the four
/// known. The shortest header has 16-bit dimensions and neither a
/// compression method nor a colour count.
pub open spec fn dib_parsed(bytes: Seq<u8>) -> Option<DibView> {
    let size = le_u32_at(bytes, 14);
    if size == 12 {
        Some(
            DibView {
                size,
                width: le_u16_at(bytes, 18) as u32,
                height: le_i16_at(bytes, 20) as i32,
                bitcount: le_u16_at(bytes, 24),
                compression: None,
                clr_used: None,
            },
        )
    } else if size == 40 || size == 108 || size == 124 {
        Some(
            DibView {
                size,
                width: le_u32_at(bytes, 18),
                height: le_i32_at(bytes, 22) as i32,
                bitcount: le_u16_at(bytes, 28),
                compression: Some(compression_name(le_u32_at(bytes, 30))),
                clr_used: Some(le_u32_at(bytes, 46)),
            },
        )
    } else {
        None
    }
}

/// `BMP::new`, with its `contents` then set to a copy of `bytes`: a `BMP`
/// that holds exactly `bytes`. The image that `BMP::new` makes is thrown away.
#[verifier::external_body]
pub(crate) fn bmp_load(bytes: &Vec<u8>) -> (bmp: BMP)
    ensures
        bmp_contents(bmp) == bytes@,
{
    let mut bmp = BMP::new(50i32, 50u32, Some([0u8, 0u8, 0u8, 0u8]));
    bmp.contents = bytes.clone();
    bmp
}

/// `BMP::get_header`, of which the offset of the pixel rows is kept: the
/// 32-bit number at byte 10. The call panics on a file of fewer than 14
/// bytes.
#[verifier::external_body]
pub(crate) fn bmp_offset(bmp: &BMP) -> (offset: u32)
    requires
        bmp_contents(*bmp).len() >= 14,
    ensures
        offset == le_u32_at(bmp_contents(*bmp), 10),
{
    bmp.get_header().bfOffBits
}

/// `BMP::get_dib_header`: the second header, or nothing where its stated
/// size is none of 12, 40, 108 and 124. The call panics on a file that
/// ends within the header, and on a compression method or rendering
/// intent that it has no name for: `dib_readable` rules those out.
#[verifier::external_body]
pub(crate) fn bmp_dib(bmp: &BMP) -> (header: Option<DibHeader>)
    requires
        dib_readable(bmp_contents(*bmp)),
    ensures
        dib_view(header) == dib_parsed(bmp_contents(*bmp)),
{
    match bmp.get_dib_header() {
        Ok(found) => Some(
            DibHeader {
                size: found.size,
                width: found.width,
                height: found.height,
                bitcount: found.bitcount,
                compression: found.compression,
                clr_used: found.ClrUsed,
            },
        ),
        Err(_) => None,
    }
}

} // verus!
