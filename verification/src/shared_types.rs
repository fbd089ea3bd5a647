//! The values that pass between the parts of the library.

use vstd::prelude::*;
use crate::bitstream::two_to;
use std::path::PathBuf;

verus! {

/// `std::path::PathBuf`, carried through as it is: nothing in the library
/// looks inside a path.
#[verifier::external_type_specification]
#[verifier::external_body]
pub struct ExPathBuf(PathBuf);

/// `PathBuf::clone`, which the derived `Clone` of `Parameters` calls.
/// Nothing is claimed of the copy.
pub assume_specification[ <PathBuf as Clone>::clone ](path: &PathBuf) -> (copy: PathBuf)
;

/// What one run was asked to do.
#[derive(Clone)]
pub struct Parameters {
    pub directory_mode: bool,
    pub source_path: PathBuf,
    pub target_path: PathBuf,
    pub palette_file: PathBuf,
    pub source_format: SpriteFormat,
    pub target_format: SpriteFormat,
    pub palette_transfer: bool,
    pub forced_bit_depth: bool,
    pub bit_depth: usize,
    pub as_rgb: bool,
    pub opaque: bool,
    pub uncompressed: bool,
    pub reindex: bool,
    pub hash_mode: HashMode,
    pub hash_value: u16,
    pub verbose: bool,
    pub overwrite: bool,
}

/// The on-disk representations of a sprite.
#[allow(non_camel_case_types)]
#[derive(Clone, Copy, Debug, PartialEq, Eq, Structural)]
pub enum SpriteFormat {
    NONE,
    PNG,
    RAW,
    BIN,
    BMP,
}

/// How the hash field of a written header is chosen.
#[derive(Clone, Copy, Debug, PartialEq, Eq, Structural)]
pub enum HashMode {
    GENERATE,
    PRESET,
    INCREMENTAL,
}

/// Why a file could not be encoded or decoded. Each failure concerns one
/// file only; nothing is recovered from a file that fails.
#[derive(Clone, Copy, Debug, PartialEq, Eq, Structural)]
pub enum SpriteError {
    /// The file is shorter than its header, its palette or its payload
    /// says it is.
    MalformedHeader,
    /// The bit depth is neither 4 nor 8.
    InvalidBitDepth,
    /// The token stream ends before all its tokens were read.
    TruncatedBitstream,
    /// A match token points outside the pixels decoded so far.
    InvalidReference,
}

/// An indexed-colour image: one entry of `pixels` per pixel, and a palette
/// of RGBA quads that is empty when the image carries none.
#[derive(Clone, Debug)]
pub struct SpriteData {
    pub width: u16,
    pub height: u16,
    pub bit_depth: u16,
    pub pixels: Vec<u8>,
    pub palette: Vec<u8>,
}

/// The mathematical value of a `SpriteData`.
pub struct SpriteView {
    pub width: u16,
    pub height: u16,
    pub bit_depth: u16,
    pub pixels: Seq<u8>,
    pub palette: Seq<u8>,
}

impl View for SpriteData {
    type V = SpriteView;

    open spec fn view(&self) -> SpriteView {
        SpriteView {
            width: self.width,
            height: self.height,
            bit_depth: self.bit_depth,
            pixels: self.pixels@,
            palette: self.palette@,
        }
    }
}

/// Whether `bit_depth` is one the sprite format knows.
pub open spec fn depth_supported(bit_depth: u16) -> bool {
    bit_depth == 4 || bit_depth == 8
}

/// The number of bytes in a palette for `bit_depth`: four per colour.
pub open spec fn palette_len(bit_depth: u16) -> int {
    4 * two_to(bit_depth as nat)
}

impl SpriteView {
    /// The number of pixels that the dimensions call for.
    pub open spec fn pixel_count(self) -> int {
        self.width as int * self.height as int
    }

    /// A well-formed image: a supported bit depth, as many pixels as the
    /// dimensions call for, each within the bit depth, and a palette that
    /// is absent or complete.
    pub open spec fn wf(self) -> bool {
        &&& depth_supported(self.bit_depth)
        &&& self.pixels.len() == self.pixel_count()
        &&& forall|i: int|
            0 <= i < self.pixels.len() ==> (#[trigger] self.pixels[i] as int) < two_to(
                self.bit_depth as nat,
            )
        &&& (self.palette.len() == 0 || self.palette.len() == palette_len(self.bit_depth))
    }
}

impl Default for SpriteData {
    /// The empty 8-bit image.
    fn default() -> (d: SpriteData)
        ensures
            d@ == (SpriteView {
                width: 0,
                height: 0,
                bit_depth: 8,
                pixels: Seq::empty(),
                palette: Seq::empty(),
            }),
    {
        SpriteData {
            width: 0,
            height: 0,
            bit_depth: 8,
            pixels: Vec::new(),
            palette: Vec::new(),
        }
    }
}

/// A token stream ready to be framed in a file: the number of tokens and
/// their bits, byte-aligned and padded.
#[derive(Clone, Debug)]
pub struct CompressedData {
    pub iterations: usize,
    pub stream: Vec<u8>,
}

} // verus!
