//! Reading images out of the bytes of input files.

use vstd::prelude::*;
use crate::bin_header::{get_header, parse_header, BinHeader, CLUT_EMBEDDED};
use crate::bit_depth::unpack4to8;
use crate::bitstream::{lemma_two_to_values, two_to};
use crate::bmp_file::{
    bmp_dib, bmp_load, bmp_offset, dib_parsed, dib_readable, le_u32_at, DibHeader,
    DibView,
};
use crate::buffer::{append_range, slice_of};
use crate::process::{alpha_for, default_alpha};
use crate::raw_name::{name_dims, raw_dimensions};
use crate::shared_types::{SpriteData, SpriteError, SpriteView, depth_supported};
use crate::sprite_compress::{
    decoded_as, decompress, decompressed, embedded_palette_len, fit, unit_count, units_pixels,
};
use crate::sprite_transform::{bpp_from_1, bpp_from_2, bpp_from_4, unpack1, unpack2};

verus! {

/// The image that an uncompressed file holds, or why it holds none.
///
/// After the 16 bytes of the header come the palette, if the header
/// announces one, and the pixels: one byte per pixel at 8 bits, one byte
/// per two pixels at 4 bits, the first of each pair in the low nibble. The
/// file is malformed where it ends before its pixels do; bytes after the
/// pixels are ignored.
pub open spec fn stored(file: Seq<u8>, header: BinHeader) -> Result<SpriteView, SpriteError> {
    let start = 16 + embedded_palette_len(header);
    let pixel_count = header.width as int * header.height as int;
    let units = unit_count(pixel_count, header.bit_depth);
    if !depth_supported(header.bit_depth) {
        Err(SpriteError::InvalidBitDepth)
    } else if file.len() < start + units {
        Err(SpriteError::MalformedHeader)
    } else {
        Ok(
            SpriteView {
                width: header.width,
                height: header.height,
                bit_depth: header.bit_depth,
                pixels: units_pixels(
                    file.subrange(start, start + units),
                    header.bit_depth,
                    pixel_count,
                ),
                palette: file.subrange(16, start),
            },
        )
    }
}

/// The image that a sprite file holds, or why it holds none. A file
/// shorter than a header is malformed; otherwise the header says whether
/// the rest is compressed.
pub open spec fn loaded(file: Seq<u8>) -> Result<SpriteView, SpriteError> {
    if file.len() < 16 {
        Err(SpriteError::MalformedHeader)
    } else if parse_header(file).compressed {
        decompressed(file, parse_header(file))
    } else {
        stored(file, parse_header(file))
    }
}

/// Reads the image out of the bytes of a sprite file in the engine's own
/// format, compressed or not.
pub fn get_bin(bin_data: Vec<u8>) -> (result: Result<SpriteData, SpriteError>)
    ensures
        decoded_as(result, loaded(bin_data@)),
{
    if bin_data.len() < 16 {
        return Err(SpriteError::MalformedHeader);
    }
    let header: BinHeader = get_header(slice_of(&bin_data, 0x0, 0x10));
    assert(header == parse_header(bin_data@));
    if header.compressed {
        return decompress(bin_data, header);
    }
    if header.bit_depth != 4 && header.bit_depth != 8 {
        return Err(SpriteError::InvalidBitDepth);
    }
    proof {
        lemma_two_to_values();
    }
    let palette_size: usize = if header.clut != CLUT_EMBEDDED {
        0
    } else if header.bit_depth == 4 {
        64
    } else {
        1024
    };
    let start: usize = 16 + palette_size;
    assert(header.width as int * header.height as int <= 0xFFFF * 0xFFFF) by (nonlinear_arith)
        requires
            header.width <= 0xFFFF,
            header.height <= 0xFFFF,
    ;
    let pixel_count: usize = header.width as usize * header.height as usize;
    let units: usize = if header.bit_depth == 4 {
        (pixel_count + 1) / 2
    } else {
        pixel_count
    };
    if bin_data.len() < start || bin_data.len() - start < units {
        return Err(SpriteError::MalformedHeader);
    }
    let palette = slice_of(&bin_data, 0x10, start);
    let raw = slice_of(&bin_data, start, start + units);
    let mut pixels = if header.bit_depth == 4 {
        bpp_from_4(raw, true)
    } else {
        raw
    };
    fit(&mut pixels, pixel_count);
    Ok(
        SpriteData {
            width: header.width,
            height: header.height,
            bit_depth: header.bit_depth,
            pixels,
            palette,
        },
    )
}

/// How the samples of a decoded PNG image are laid out.
#[derive(Clone, Copy, Debug, PartialEq, Eq, Structural)]
pub enum PngColor {
    Grayscale,
    Indexed,
    GrayscaleAlpha,
    Rgb,
    Rgba,
}

/// A decoded PNG image: what its header says, its sample bytes, and its
/// palette and transparency chunks where it has them.
pub struct PngImage {
    pub color: PngColor,
    pub bit_depth: u8,
    pub width: u32,
    pub height: u32,
    pub bytes: Vec<u8>,
    pub palette: Option<Vec<u8>>,
    pub trns: Option<Vec<u8>>,
}

/// The mathematical value of a `PngImage`.
pub struct PngView {
    pub color: PngColor,
    pub bit_depth: u8,
    pub width: u32,
    pub height: u32,
    pub bytes: Seq<u8>,
    pub palette: Option<Seq<u8>>,
    pub trns: Option<Seq<u8>>,
}

impl View for PngImage {
    type V = PngView;

    open spec fn view(&self) -> PngView {
        PngView {
            color: self.color,
            bit_depth: self.bit_depth,
            width: self.width,
            height: self.height,
            bytes: self.bytes@,
            palette: match self.palette {
                Some(bytes) => Some(bytes@),
                None => None,
            },
            trns: match self.trns {
                Some(bytes) => Some(bytes@),
                None => None,
            },
        }
    }
}

/// The number of bytes that one pixel takes in the sample bytes.
pub open spec fn png_stride(color: PngColor) -> int {
    match color {
        PngColor::Grayscale => 1,
        PngColor::Indexed => 1,
        PngColor::GrayscaleAlpha => 2,
        PngColor::Rgb => 3,
        PngColor::Rgba => 4,
    }
}

/// The first of every `stride` bytes.
pub open spec fn every_nth(bytes: Seq<u8>, stride: int) -> Seq<u8> {
    Seq::new((bytes.len() as int / stride) as nat, |i: int| bytes[i * stride])
}

/// The alpha of palette entry `index`: that of the transparency chunk
/// where it reaches so far, else half opaque.
pub open spec fn png_alpha(trns: Option<Seq<u8>>, index: int) -> u8 {
    match trns {
        Some(alpha) => if index < alpha.len() {
            alpha[index]
        } else {
            0x80u8
        },
        None => 0x80u8,
    }
}

/// The palette of an indexed PNG image as RGBA quads, empty for other
/// images and for one without a palette chunk.
pub open spec fn png_palette(image: PngView) -> Seq<u8> {
    match image.palette {
        Some(rgb) => if image.color == PngColor::Indexed {
            Seq::new(
                (4 * (rgb.len() as int / 3)) as nat,
                |i: int|
                    if i % 4 == 3 {
                        png_alpha(image.trns, i / 4)
                    } else {
                        rgb[3 * (i / 4) + i % 4]
                    },
            )
        } else {
            Seq::empty()
        },
        None => Seq::empty(),
    }
}

/// The bit depth that a PNG image gives its sprite: 1, 2 and 4 are kept,
/// everything else counts as 8.
pub open spec fn png_depth(bit_depth: u8) -> u16 {
    if bit_depth == 1 || bit_depth == 2 || bit_depth == 4 {
        bit_depth as u16
    } else {
        8u16
    }
}

/// The pixels of a PNG image, one entry per pixel: the first byte of each
/// pixel, unpacked from the highest bits down where the bit depth is below
/// 8.
pub open spec fn png_pixels(image: PngView) -> Seq<u8> {
    let samples = every_nth(image.bytes, png_stride(image.color));
    if image.bit_depth == 1 {
        unpack1(samples, false)
    } else if image.bit_depth == 2 {
        unpack2(samples, false)
    } else if image.bit_depth == 4 {
        unpack4to8(samples, true)
    } else {
        samples
    }
}

/// The sprite that a decoded PNG image stands for. Dimensions beyond 16
/// bits are cut to their low 16 bits.
pub open spec fn png_sprite(image: PngView) -> SpriteView {
    SpriteView {
        width: (image.width as int % 0x1_0000) as u16,
        height: (image.height as int % 0x1_0000) as u16,
        bit_depth: png_depth(image.bit_depth),
        pixels: png_pixels(image),
        palette: png_palette(image),
    }
}

fn take_every(bytes: Vec<u8>, stride: usize) -> (taken: Vec<u8>)
    requires
        1 <= stride <= 4,
    ensures
        taken@ == every_nth(bytes@, stride as int),
{
    if stride == 1 {
        assert(bytes@ =~= every_nth(bytes@, 1));
        return bytes;
    }
    let count = bytes.len() / stride;
    let mut taken: Vec<u8> = Vec::new();
    let mut pixel: usize = 0;
    while pixel < count
        invariant
            pixel <= count,
            count == bytes.len() / stride,
            1 <= stride <= 4,
            taken@ == every_nth(bytes@, stride as int).take(pixel as int),
        decreases count - pixel,
    {
        assert(pixel * stride + stride <= count * stride <= bytes.len()) by (nonlinear_arith)
            requires
                pixel < count,
                count == bytes.len() / stride,
                stride >= 1,
        ;
        taken.push(bytes[pixel * stride]);
        pixel += 1;
        assert(taken@ =~= every_nth(bytes@, stride as int).take(pixel as int));
    }
    assert(taken@ =~= every_nth(bytes@, stride as int));
    taken
}

/// Turns a decoded PNG image into a sprite.
///
/// Of an image that is not indexed the first channel is taken as the
/// pixel. The palette of an indexed image becomes RGBA, with the alpha of
/// the transparency chunk, or half opaque where that says nothing.
pub fn get_png(image: PngImage) -> (sprite: SpriteData)
    ensures
        sprite@ == png_sprite(image@),
{
    let ghost view = image@;
    let stride: usize = match image.color {
        PngColor::Grayscale => 1,
        PngColor::Indexed => 1,
        PngColor::GrayscaleAlpha => 2,
        PngColor::Rgb => 3,
        PngColor::Rgba => 4,
    };
    let mut palette: Vec<u8> = Vec::new();
    if image.color == PngColor::Indexed {
        match &image.palette {
            Some(rgb) => {
                let color_count: usize = rgb.len() / 3;
                let ghost want = png_palette(view);
                let mut index: usize = 0;
                while index < color_count
                    invariant
                        index <= color_count,
                        color_count == rgb.len() / 3,
                        view == image@,
                        view.palette == Some::<Seq<u8>>(rgb@),
                        view.color == PngColor::Indexed,
                        want == png_palette(view),
                        palette@.len() == 4 * index,
                        forall|i: int| 0 <= i < palette@.len() ==> #[trigger] palette@[i] == want[i],
                    decreases color_count - index,
                {
                    let alpha: u8 = match &image.trns {
                        Some(alpha) => if index < alpha.len() {
                            alpha[index]
                        } else {
                            0x80
                        },
                        None => 0x80,
                    };
                    palette.push(rgb[3 * index]);
                    palette.push(rgb[3 * index + 1]);
                    palette.push(rgb[3 * index + 2]);
                    palette.push(alpha);
                    index += 1;
                }
                assert(palette@ =~= want);
            },
            None => {},
        }
    }
    assert(palette@ == png_palette(view));
    let samples = take_every(image.bytes, stride);
    let depth = image.bit_depth;
    let pixels = if depth == 1 {
        bpp_from_1(samples, false)
    } else if depth == 2 {
        bpp_from_2(samples, false)
    } else if depth == 4 {
        bpp_from_4(samples, false)
    } else {
        samples
    };
    let bit_depth: u16 = if depth == 1 || depth == 2 || depth == 4 {
        depth as u16
    } else {
        8
    };
    SpriteData {
        width: (image.width % 0x1_0000) as u16,
        height: (image.height % 0x1_0000) as u16,
        bit_depth,
        pixels,
        palette,
    }
}

/// Why no sprite was read from a BMP file.
#[derive(Clone, Copy, Debug, PartialEq, Eq, Structural)]
pub enum BmpError {
    /// The file ends before what its headers announce, or its headers
    /// announce what cannot be read.
    OutOfBounds,
    /// The size of the second header is none of the four known.
    UnreadableHeader,
    /// The bit depth is none of 1, 2, 4 and 8.
    UnsupportedDepth,
    /// The image is wider or higher than 65535 pixels.
    TooLarge,
}

/// The length of a row of pixel data: a whole number of 32-bit words.
pub open spec fn bmp_row_size(dib: DibView) -> int {
    (dib.bitcount * dib.width + 31) / 32 * 4
}

/// The height without its sign.
pub open spec fn bmp_row_count(dib: DibView) -> int {
    if dib.height < 0 {
        -(dib.height as int)
    } else {
        dib.height as int
    }
}

/// Whether a bit depth is one that is read.
pub open spec fn bmp_depth_known(bitcount: u16) -> bool {
    bitcount == 1 || bitcount == 2 || bitcount == 4 || bitcount == 8
}

/// The pixel data with one entry per pixel, unpacked from the highest
/// bits down.
pub open spec fn bmp_unpacked(area: Seq<u8>, bitcount: u16) -> Seq<u8> {
    if bitcount == 1 {
        unpack1(area, false)
    } else if bitcount == 2 {
        unpack2(area, false)
    } else if bitcount == 4 {
        unpack4to8(area, true)
    } else {
        area
    }
}

/// The first `done` rows of the sprite: stretches of `width` pixels of
/// `unpacked`, taken from the last of `height` stretches upwards.
pub open spec fn bmp_flipped(unpacked: Seq<u8>, width: int, height: int, done: nat) -> Seq<u8>
    decreases done,
{
    if done == 0 {
        Seq::empty()
    } else {
        bmp_flipped(unpacked, width, height, (done - 1) as nat) + unpacked.subrange(
            (height - done) * width,
            (height - done) * width + width,
        )
    }
}

/// The number of bytes between the second header and the colour table:
/// the bit masks that two compression methods put there.
pub open spec fn bmp_flags_len(compression: Option<Seq<char>>) -> int {
    match compression {
        Some(name) => if name == "BI_BITFIELDS"@ {
            12
        } else if name == "BI_ALPHABITFIELDS"@ {
            16
        } else {
            0
        },
        None => 0,
    }
}

/// Where the colour table begins.
pub open spec fn bmp_table_start(dib: DibView) -> int {
    14 + dib.size + bmp_flags_len(dib.compression)
}

/// The number of bytes of one entry of the colour table.
pub open spec fn bmp_color_size(dib: DibView) -> int {
    if dib.size == 12 {
        3
    } else {
        4
    }
}

/// The number of entries of the colour table: what the header states, or
/// as many as the bit depth allows where it states none.
pub open spec fn bmp_color_count(dib: DibView) -> int {
    match dib.clr_used {
        Some(count) => if count == 0 {
            two_to(dib.bitcount as nat)
        } else {
            count as int
        },
        None => two_to(dib.bitcount as nat),
    }
}

/// The colour table as RGBA quads, with the default alpha.
pub open spec fn bmp_palette(bytes: Seq<u8>, dib: DibView) -> Seq<u8> {
    Seq::new(
        (4 * bmp_color_count(dib)) as nat,
        |i: int|
            if i % 4 == 3 {
                default_alpha(i / 4)
            } else {
                bytes[bmp_table_start(dib) + bmp_color_size(dib) * (i / 4) + 2 - i % 4]
            },
    )
}

/// The sprite that a BMP file holds, given the offset of its pixel data
/// and its second header, or why it holds none.
///
/// The file is out of bounds where it ends before its pixel data or its
/// colour table does, and where its height is negative. Its pixel data is
/// read as stretches of `width` pixels, the last stretch first.
pub open spec fn bmp_sprite(bytes: Seq<u8>, offset: u32, dib: DibView) -> Result<
    SpriteView,
    BmpError,
> {
    let area_len = bmp_row_size(dib) * bmp_row_count(dib);
    let colors = bmp_color_count(dib);
    if dib.height == i32::MIN || offset + area_len > bytes.len() {
        Err(BmpError::OutOfBounds)
    } else if !bmp_depth_known(dib.bitcount) {
        Err(BmpError::UnsupportedDepth)
    } else if dib.height < 0 {
        Err(BmpError::OutOfBounds)
    } else if dib.width > 0xFFFF || dib.height > 0xFFFF {
        Err(BmpError::TooLarge)
    } else if colors > 0 && bmp_table_start(dib) + bmp_color_size(dib) * (colors - 1) + 2
        >= bytes.len() {
        Err(BmpError::OutOfBounds)
    } else {
        Ok(
            SpriteView {
                width: dib.width as u16,
                height: dib.height as u16,
                bit_depth: dib.bitcount,
                pixels: bmp_flipped(
                    bmp_unpacked(
                        bytes.subrange(offset as int, offset + area_len),
                        dib.bitcount,
                    ),
                    dib.width as int,
                    dib.height as int,
                    dib.height as nat,
                ),
                palette: bmp_palette(bytes, dib),
            },
        )
    }
}

/// The sprite that a BMP file holds, or why it holds none.
pub open spec fn bmp_loaded(bytes: Seq<u8>) -> Result<SpriteView, BmpError> {
    if bytes.len() < 14 || !dib_readable(bytes) {
        Err(BmpError::OutOfBounds)
    } else {
        match dib_parsed(bytes) {
            None => Err(BmpError::UnreadableHeader),
            Some(dib) => bmp_sprite(bytes, le_u32_at(bytes, 10), dib),
        }
    }
}

/// Whether a reading of a BMP file ended as `expected` says.
pub open spec fn bmp_read_as(
    result: Result<SpriteData, BmpError>,
    expected: Result<SpriteView, BmpError>,
) -> bool {
    match result {
        Ok(sprite) => expected == Ok::<SpriteView, BmpError>(sprite@),
        Err(error) => expected == Err::<SpriteView, BmpError>(error),
    }
}

fn read_u32_at(bytes: &Vec<u8>, at: usize) -> (value: u32)
    requires
        at + 4 <= bytes.len(),
    ensures
        value == le_u32_at(bytes@, at as int),
{
    bytes[at] as u32 + 0x100 * (bytes[at + 1] as u32) + 0x1_0000 * (bytes[at + 2] as u32)
        + 0x100_0000 * (bytes[at + 3] as u32)
}

/// Tells whether the second header of a BMP file can be read.
pub fn dib_is_readable(bytes: &Vec<u8>) -> (readable: bool)
    ensures
        readable == dib_readable(bytes@),
{
    let len = bytes.len();
    if len < 18 {
        return false;
    }
    let size = read_u32_at(bytes, 14);
    if size == 12 {
        len >= 26
    } else if size == 40 {
        len >= 54 && read_u32_at(bytes, 30) <= 6
    } else if size == 108 {
        len >= 122 && read_u32_at(bytes, 30) <= 6
    } else if size == 124 {
        len >= 138 && read_u32_at(bytes, 30) <= 6 && read_u32_at(bytes, 122) <= 4
    } else {
        true
    }
}

proof fn lemma_rows_fit(row: int, rows: int, avail: int)
    requires
        row > 0,
        rows >= 0,
        avail >= 0,
    ensures
        rows <= avail / row <==> row * rows <= avail,
{
    vstd::arithmetic::div_mod::lemma_fundamental_div_mod(avail, row);
    if rows <= avail / row {
        assert(row * rows <= row * (avail / row)) by (nonlinear_arith)
            requires
                row > 0,
                0 <= rows <= avail / row,
        ;
    } else {
        assert(row * rows >= row * (avail / row + 1)) by (nonlinear_arith)
            requires
                row > 0,
                rows >= avail / row + 1,
        ;
        assert(row * (avail / row + 1) == row * (avail / row) + row) by (nonlinear_arith);
    }
}

/// The place and the length of the pixel data, if the file holds all of
/// it.
fn bmp_area(len: usize, offset: u32, dib: &DibHeader) -> (area: Option<(usize, usize)>)
    ensures
        area is None <==> dib.height == i32::MIN || offset + bmp_row_size(dib@) * bmp_row_count(
            dib@,
        ) > len,
        area matches Some(found) ==> found == (
            offset as usize,
            (bmp_row_size(dib@) * bmp_row_count(dib@)) as usize,
        ),
{
    if dib.height == i32::MIN {
        return None;
    }
    let rows: u64 = if dib.height < 0 {
        (-dib.height) as u64
    } else {
        dib.height as u64
    };
    assert(dib.bitcount * dib.width <= 0xFFFF * 0xFFFF_FFFF) by (nonlinear_arith)
        requires
            dib.bitcount <= 0xFFFF,
            dib.width <= 0xFFFF_FFFF,
    ;
    let bits: u64 = dib.bitcount as u64 * dib.width as u64;
    let row: u64 = (bits + 31) / 32 * 4;
    let start: u64 = offset as u64;
    let total: u64 = len as u64;
    assert(0 <= row * rows) by (nonlinear_arith)
        requires
            0 <= row,
            0 <= rows,
    ;
    if start > total {
        return None;
    }
    let avail: u64 = total - start;
    if row == 0 || rows == 0 {
        assert(row * rows == 0) by (nonlinear_arith)
            requires
                row == 0 || rows == 0,
        ;
        return Some((start as usize, 0));
    }
    proof {
        lemma_rows_fit(row as int, rows as int, avail as int);
    }
    if rows > avail / row {
        return None;
    }
    Some((start as usize, (row * rows) as usize))
}

/// Reads the colour table, if the file holds all of it.
fn bmp_colors(bytes: &Vec<u8>, dib: &DibHeader) -> (palette: Option<Vec<u8>>)
    requires
        bmp_depth_known(dib.bitcount),
    ensures
        palette is None <==> bmp_color_count(dib@) > 0 && bmp_table_start(dib@) + bmp_color_size(
            dib@,
        ) * (bmp_color_count(dib@) - 1) + 2 >= bytes.len(),
        palette is Some ==> palette->0@ == bmp_palette(bytes@, dib@),
{
    proof {
        lemma_two_to_values();
        reveal_with_fuel(two_to, 3);
    }
    let flags: u64 = match &dib.compression {
        Some(name) => if *name == "BI_BITFIELDS".to_owned() {
            12
        } else if *name == "BI_ALPHABITFIELDS".to_owned() {
            16
        } else {
            0
        },
        None => 0,
    };
    let start: u64 = 14 + dib.size as u64 + flags;
    let color_size: u64 = if dib.size == 12 {
        3
    } else {
        4
    };
    let full: u64 = if dib.bitcount == 1 {
        2
    } else if dib.bitcount == 2 {
        4
    } else if dib.bitcount == 4 {
        16
    } else {
        256
    };
    let colors: u64 = match dib.clr_used {
        Some(count) => if count == 0 {
            full
        } else {
            count as u64
        },
        None => full,
    };
    assert(colors > 0);
    assert(colors == bmp_color_count(dib@));
    let len: u64 = bytes.len() as u64;
    if start + color_size * (colors - 1) + 2 >= len {
        return None;
    }
    let ghost want = bmp_palette(bytes@, dib@);
    let mut palette: Vec<u8> = Vec::new();
    let mut color: u64 = 0;
    while color < colors
        invariant
            color <= colors <= 0xFFFF_FFFF,
            3 <= color_size <= 4,
            color_size == bmp_color_size(dib@),
            start == bmp_table_start(dib@),
            colors == bmp_color_count(dib@),
            start + color_size * (colors - 1) + 2 < bytes.len(),
            want == bmp_palette(bytes@, dib@),
            palette@.len() == 4 * color,
            forall|i: int| 0 <= i < palette@.len() ==> #[trigger] palette@[i] == want[i],
        decreases colors - color,
    {
        assert(color_size * color <= color_size * (colors - 1)) by (nonlinear_arith)
            requires
                color <= colors - 1,
                color_size >= 0,
        ;
        let entry: usize = (start + color_size * color) as usize;
        palette.push(bytes[entry + 2]);
        palette.push(bytes[entry + 1]);
        palette.push(bytes[entry]);
        palette.push(alpha_for(color as usize));
        color += 1;
    }
    assert(palette@ =~= want);
    Some(palette)
}

/// Reads the sprite out of a BMP file, given the offset of its pixel data
/// and its second header.
pub fn bmp_to_sprite(bytes: &Vec<u8>, offset: u32, dib: DibHeader) -> (result: Result<
    SpriteData,
    BmpError,
>)
    ensures
        bmp_read_as(result, bmp_sprite(bytes@, offset, dib@)),
{
    let (start, area_len) = match bmp_area(bytes.len(), offset, &dib) {
        Some(area) => area,
        None => { return Err(BmpError::OutOfBounds); },
    };
    if dib.bitcount != 1 && dib.bitcount != 2 && dib.bitcount != 4 && dib.bitcount != 8 {
        return Err(BmpError::UnsupportedDepth);
    }
    if dib.height < 0 {
        return Err(BmpError::OutOfBounds);
    }
    if dib.width > 0xFFFF || dib.height > 0xFFFF {
        return Err(BmpError::TooLarge);
    }
    let palette = match bmp_colors(bytes, &dib) {
        Some(palette) => palette,
        None => { return Err(BmpError::OutOfBounds); },
    };
    let width: usize = dib.width as usize;
    let height: usize = dib.height as usize;
    let pixel_array = slice_of(bytes, start, start + area_len);
    let unpacked = if dib.bitcount == 1 {
        bpp_from_1(pixel_array, false)
    } else if dib.bitcount == 2 {
        bpp_from_2(pixel_array, false)
    } else if dib.bitcount == 4 {
        bpp_from_4(pixel_array, false)
    } else {
        pixel_array
    };
    assert(unpacked@ == bmp_unpacked(
        bytes@.subrange(offset as int, offset + area_len),
        dib.bitcount,
    ));
    assert(height * width <= unpacked.len()) by {
        let row = bmp_row_size(dib@);
        let per_row = unpacked.len() as int / 1;
        assert(dib.bitcount * dib.width == if dib.bitcount == 1 {
            dib.width as int
        } else if dib.bitcount == 2 {
            2 * dib.width
        } else if dib.bitcount == 4 {
            4 * dib.width
        } else {
            8 * dib.width
        });
        assert(row * 8 >= dib.bitcount * dib.width);
        assert(unpacked.len() * dib.bitcount == 8 * (row * height));
        assert(height * (row * 8) >= height * (dib.bitcount * width)) by (nonlinear_arith)
            requires
                row * 8 >= dib.bitcount * width,
                height >= 0,
        ;
        assert(unpacked.len() * dib.bitcount >= (height * width) * dib.bitcount)
            by (nonlinear_arith)
            requires
                unpacked.len() * dib.bitcount == 8 * (row * height),
                height * (row * 8) >= height * (dib.bitcount * width),
        ;
    }
    let mut pixels: Vec<u8> = Vec::new();
    let mut done: usize = 0;
    while done < height
        invariant
            done <= height,
            height * width <= unpacked.len(),
            pixels@ == bmp_flipped(unpacked@, width as int, height as int, done as nat),
        decreases height - done,
    {
        let y: usize = height - 1 - done;
        assert(0 <= y * width && y * width + width <= height * width) by (nonlinear_arith)
            requires
                0 <= y < height,
                0 <= width,
        ;
        append_range(&mut pixels, &unpacked, y * width, width);
        done += 1;
    }
    Ok(
        SpriteData {
            width: dib.width as u16,
            height: dib.height as u16,
            bit_depth: dib.bitcount,
            pixels,
            palette,
        },
    )
}

/// Reads the sprite out of the bytes of a BMP file.
///
/// The headers are read by `bmp_rust`. The pixel data is unpacked to one
/// entry per pixel and its rows are put in top-down order; the colour
/// table becomes the palette, with the default alpha.
pub fn get_bmp(bytes: Vec<u8>) -> (result: Result<SpriteData, BmpError>)
    ensures
        bmp_read_as(result, bmp_loaded(bytes@)),
{
    if bytes.len() < 14 || !dib_is_readable(&bytes) {
        return Err(BmpError::OutOfBounds);
    }
    let bmp = bmp_load(&bytes);
    let offset = bmp_offset(&bmp);
    match bmp_dib(&bmp) {
        Some(dib) => bmp_to_sprite(&bytes, offset, dib),
        None => Err(BmpError::UnreadableHeader),
    }
}

/// The sprite that a raw pixel dump holds: its bytes as 8-bit pixels,
/// with the dimensions that its name carries, or nothing where the name
/// lacks a width or a height.
pub open spec fn raw_sprite(name: Seq<u8>, data: Seq<u8>) -> Option<SpriteView> {
    let dims = name_dims(name);
    if dims.0 == 0 || dims.1 == 0 {
        None
    } else {
        Some(
            SpriteView {
                width: dims.0,
                height: dims.1,
                bit_depth: 8,
                pixels: data,
                palette: Seq::empty(),
            },
        )
    }
}

/// Makes a sprite of a raw pixel dump, given the name of the file without
/// its extension and the bytes of the file.
pub fn get_raw(name: &Vec<u8>, data: Vec<u8>) -> (result: Option<SpriteData>)
    ensures
        match result {
            Some(sprite) => raw_sprite(name@, data@) == Some::<SpriteView>(sprite@),
            None => raw_sprite(name@, data@) is None,
        },
{
    let dims = raw_dimensions(name);
    if dims.0 == 0 || dims.1 == 0 {
        return None;
    }
    Some(
        SpriteData {
            width: dims.0,
            height: dims.1,
            bit_depth: 8,
            pixels: data,
            palette: Vec::new(),
        },
    )
}

} // verus!
