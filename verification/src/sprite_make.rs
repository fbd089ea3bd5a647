//! Building the bytes of output files.

use vstd::prelude::*;
use crate::bin_header::{get_bytes, header_bytes, BinHeader, CLUT_EMBEDDED};
use crate::bit_depth::pack8to4;
use crate::bitstream::{lemma_two_to_values, two_to};
use crate::buffer::{append, append_range, append_zeros, zeros};
use crate::shared_types::{SpriteData, SpriteError, SpriteView, depth_supported};
use crate::sprite_compress::{
    compress, count_bytes, encode, lemma_payload_padding, payload_bytes, stream_units, swap_words,
};
use crate::sprite_transform::bpp_to_4;

verus! {

/// The header written for `image`: the palette flag is set exactly where
/// the image carries a palette, and the three opaque fields are zero.
pub open spec fn header_for(image: SpriteView, compressed: bool) -> BinHeader {
    BinHeader {
        compressed,
        clut: if image.palette.len() == 0 {
            0x0000u16
        } else {
            CLUT_EMBEDDED
        },
        bit_depth: image.bit_depth,
        width: image.width,
        height: image.height,
        tw: 0,
        th: 0,
        hash: 0,
    }
}

/// The token count as it is stored: its low 32 bits.
pub open spec fn stored_count(count: int) -> u32 {
    (count % 0x1_0000_0000) as u32
}

/// What follows the header and the palette in a file.
///
/// Compressed, it is the token count in four bytes and the token stream
/// with the bytes of each 16-bit word exchanged. Uncompressed, it is the
/// pixels themselves at 8 bits and, at 4 bits, the pixels packed two to a
/// byte, the first of each pair in the low nibble.
pub open spec fn bin_payload(image: SpriteView, compressed: bool) -> Seq<u8> {
    if compressed {
        let tokens = encode(stream_units(image));
        count_bytes(stored_count(tokens.len() as int)) + swap_words(payload_bytes(tokens))
    } else {
        stream_units(image)
    }
}

/// The bytes of the sprite file for `image`: header, palette, payload.
pub open spec fn bin_file(image: SpriteView, compressed: bool) -> Seq<u8> {
    header_bytes(header_for(image, compressed)) + image.palette + bin_payload(image, compressed)
}

/// Builds the bytes of a sprite file in the engine's own format.
///
/// A bit depth other than 4 or 8 is refused. The palette, where the image
/// has one, is embedded after the header.
pub fn make_bin(data: SpriteData, uncompressed: bool) -> (result: Result<Vec<u8>, SpriteError>)
    ensures
        match result {
            Ok(file) => depth_supported(data.bit_depth) && file@ == bin_file(data@, !uncompressed),
            Err(error) => !depth_supported(data.bit_depth) && error
                == SpriteError::InvalidBitDepth,
        },
{
    if data.bit_depth != 4 && data.bit_depth != 8 {
        return Err(SpriteError::InvalidBitDepth);
    }
    let clut: u16 = if data.palette.len() == 0 {
        0x0000
    } else {
        CLUT_EMBEDDED
    };
    let mut file: Vec<u8> = get_bytes(
        BinHeader {
            compressed: !uncompressed,
            clut,
            bit_depth: data.bit_depth,
            width: data.width,
            height: data.height,
            tw: 0x0,
            th: 0x0,
            hash: 0x0,
        },
    );
    append(&mut file, &data.palette);
    let ghost image = data@;
    let ghost front = file@;
    if uncompressed {
        let pixels = if data.bit_depth == 4 {
            bpp_to_4(data.pixels, true)
        } else {
            data.pixels
        };
        append(&mut file, &pixels);
    } else {
        let packed = match compress(data) {
            Ok(packed) => packed,
            Err(error) => { return Err(error); },
        };
        let ghost tokens = encode(stream_units(image));
        proof {
            lemma_payload_padding(tokens);
        }
        let count: u64 = packed.iterations as u64 % 0x1_0000_0000;
        file.push((count / 0x1_0000 % 256) as u8);
        file.push((count / 0x100_0000) as u8);
        file.push((count % 256) as u8);
        file.push((count / 0x100 % 256) as u8);
        assert(file@ =~= front + count_bytes(stored_count(tokens.len() as int)));
        let ghost counted = file@;
        let ghost swapped = swap_words(packed.stream@);
        let length: usize = packed.stream.len();
        let mut byte: usize = 0;
        while byte < length
            invariant
                byte <= length,
                length == packed.stream.len(),
                length % 2 == 0,
                byte % 2 == 0,
                swapped == swap_words(packed.stream@),
                file@ == counted + swapped.take(byte as int),
            decreases length - byte,
        {
            file.push(packed.stream[byte + 1]);
            file.push(packed.stream[byte]);
            byte += 2;
            assert(file@ =~= counted + swapped.take(byte as int));
        }
        assert(file@ =~= front + (count_bytes(stored_count(tokens.len() as int)) + swapped));
    }
    Ok(file)
}

/// The four bytes of a 32-bit value, lowest first.
pub open spec fn le_bytes_u32(value: u32) -> Seq<u8> {
    seq![
        (value as int % 256) as u8,
        (value as int / 0x100 % 256) as u8,
        (value as int / 0x1_0000 % 256) as u8,
        (value as int / 0x100_0000) as u8,
    ]
}

/// Whether a BMP header can be made for a width and a bit depth: the
/// depth is 1, 2, 4 or 8, and the width stays a 16-bit number when the
/// remainder of its division by four is added.
pub open spec fn bmp_header_fits(width: u16, bit_depth: u16) -> bool {
    &&& bit_depth == 1 || bit_depth == 2 || bit_depth == 4 || bit_depth == 8
    &&& width + width % 4 <= 0xFFFF
}

/// The number of bytes before the pixel rows of a BMP file: the file
/// header, the core header and three bytes per colour.
pub open spec fn bmp_pixel_offset(bit_depth: u16) -> int {
    14 + 12 + 3 * two_to(bit_depth as nat)
}

/// The file size that a BMP header states.
pub open spec fn bmp_stated_size(width: u16, height: u16, bit_depth: u16) -> int {
    bmp_pixel_offset(bit_depth) + (width + width % 4) * height
}

/// The 26 bytes of the two headers of a BMP file with a core header: the
/// mark `BM`, the stated file size, four reserved bytes, the offset of
/// the pixel rows, the size of the core header, the width, the height,
/// one plane, and the bit depth.
pub open spec fn bmp_header_bytes(width: u16, height: u16, bit_depth: u16) -> Seq<u8> {
    let offset = bmp_pixel_offset(bit_depth);
    seq![0x42u8, 0x4du8] + le_bytes_u32(bmp_stated_size(width, height, bit_depth) as u32)
        + seq![
        0u8,
        0u8,
        0u8,
        0u8,
        (offset % 256) as u8,
        (offset / 256) as u8,
        0u8,
        0u8,
        0x0Cu8,
        0u8,
        0u8,
        0u8,
        (width as int % 256) as u8,
        (width as int / 256) as u8,
        (height as int % 256) as u8,
        (height as int / 256) as u8,
        0x01u8,
        0x00u8,
        bit_depth as u8,
        0x00u8,
    ]
}

/// Builds the file header and the core header of a BMP file.
pub fn bmp_header(width: u16, height: u16, bit_depth: u16) -> (bmp_data: Vec<u8>)
    requires
        bmp_header_fits(width, bit_depth),
    ensures
        bmp_data@ == bmp_header_bytes(width, height, bit_depth),
        bmp_data.len() == 26,
{
    proof {
        lemma_two_to_values();
        reveal_with_fuel(two_to, 3);
    }
    let colors: u32 = if bit_depth == 1 {
        2
    } else if bit_depth == 2 {
        4
    } else if bit_depth == 4 {
        16
    } else {
        256
    };
    assert(colors == two_to(bit_depth as nat));
    let header_length: u32 = 14 + 12 + colors * 3;
    let row: u32 = (width + width % 4) as u32;
    assert(row * height <= 0xFFFF * 0xFFFF) by (nonlinear_arith)
        requires
            row <= 0xFFFF,
            height <= 0xFFFF,
    ;
    let size: u32 = header_length + row * height as u32;
    let mut bmp_data: Vec<u8> = Vec::new();
    bmp_data.push(0x42);
    bmp_data.push(0x4d);
    bmp_data.push((size % 256) as u8);
    bmp_data.push((size / 0x100 % 256) as u8);
    bmp_data.push((size / 0x1_0000 % 256) as u8);
    bmp_data.push((size / 0x100_0000) as u8);
    bmp_data.push(0x00);
    bmp_data.push(0x00);
    bmp_data.push(0x00);
    bmp_data.push(0x00);
    bmp_data.push((header_length % 256) as u8);
    bmp_data.push((header_length / 256) as u8);
    bmp_data.push(0x00);
    bmp_data.push(0x00);
    bmp_data.push(0x0C);
    bmp_data.push(0x00);
    bmp_data.push(0x00);
    bmp_data.push(0x00);
    bmp_data.push((width % 256) as u8);
    bmp_data.push((width / 256) as u8);
    bmp_data.push((height % 256) as u8);
    bmp_data.push((height / 256) as u8);
    bmp_data.push(0x01);
    bmp_data.push(0x00);
    bmp_data.push(bit_depth as u8);
    bmp_data.push(0x00);
    assert(bmp_data@ =~= bmp_header_bytes(width, height, bit_depth));
    bmp_data
}

/// A colour table of `colors` entries of three bytes. From a palette it
/// takes the first three channels of each entry, in their order or, if
/// `reversed`, in the opposite order; without a palette it is a grey ramp.
pub open spec fn color_table(palette: Seq<u8>, colors: int, reversed: bool) -> Seq<u8> {
    Seq::new(
        (3 * colors) as nat,
        |i: int|
            if palette.len() == 0 {
                (i / 3) as u8
            } else if reversed {
                palette[4 * (i / 3) + 2 - i % 3]
            } else {
                palette[4 * (i / 3) + i % 3]
            },
    )
}

/// Builds a colour table of three bytes per colour.
pub fn make_color_table(palette: &Vec<u8>, colors: usize, reversed: bool) -> (table: Vec<u8>)
    requires
        colors <= 256,
        palette.len() == 0 || palette.len() >= 4 * colors,
    ensures
        table@ == color_table(palette@, colors as int, reversed),
{
    let mut table: Vec<u8> = Vec::new();
    let ghost want = color_table(palette@, colors as int, reversed);
    let mut color: usize = 0;
    while color < colors
        invariant
            color <= colors <= 256,
            palette.len() == 0 || palette.len() >= 4 * colors,
            want == color_table(palette@, colors as int, reversed),
            table@.len() == 3 * color,
            forall|i: int| 0 <= i < table@.len() ==> #[trigger] table@[i] == want[i],
        decreases colors - color,
    {
        if palette.len() == 0 {
            table.push(color as u8);
            table.push(color as u8);
            table.push(color as u8);
        } else if reversed {
            table.push(palette[4 * color + 2]);
            table.push(palette[4 * color + 1]);
            table.push(palette[4 * color]);
        } else {
            table.push(palette[4 * color]);
            table.push(palette[4 * color + 1]);
            table.push(palette[4 * color + 2]);
        }
        color += 1;
    }
    assert(table@ =~= want);
    table
}

/// The pixels as a BMP or PNG file stores them: one byte per pixel at 8
/// bits, and at 4 bits two pixels per byte, the first in the high nibble.
pub open spec fn display_units(image: SpriteView) -> Seq<u8> {
    if image.bit_depth == 4 {
        pack8to4(image.pixels, true)
    } else {
        image.pixels
    }
}

/// The length of a row of a BMP file: a whole number of 32-bit words.
pub open spec fn bmp_row_len(image: SpriteView) -> int {
    (image.bit_depth * image.width + 31) / 32 * 4
}

/// The number of bytes of pixel data that one row of the image takes.
pub open spec fn bmp_byte_width(image: SpriteView) -> int {
    display_units(image).len() as int / image.height as int
}

/// Whether a BMP file can be made from an image: the bit depth is 4 or 8,
/// the image has a height, a row measured in bits stays a 16-bit number,
/// the palette is absent or complete, and the pixel data of a row is no
/// longer than a row of the file.
pub open spec fn bmp_writable(image: SpriteView) -> bool {
    &&& depth_supported(image.bit_depth)
    &&& image.height > 0
    &&& image.bit_depth * image.width + 31 <= 0xFFFF
    &&& image.palette.len() == 0 || image.palette.len() >= 4 * two_to(image.bit_depth as nat)
    &&& bmp_byte_width(image) <= bmp_row_len(image)
}

/// The first `done` rows of the pixel data of a BMP file: the rows of
/// `units` from the last upwards, each `byte_width` long and followed by
/// `fill` zero bytes.
pub open spec fn bmp_rows(units: Seq<u8>, height: int, byte_width: int, fill: int, done: nat) -> Seq<
    u8,
>
    decreases done,
{
    if done == 0 {
        Seq::empty()
    } else {
        bmp_rows(units, height, byte_width, fill, (done - 1) as nat) + units.subrange(
            (height - done) * byte_width,
            (height - done) * byte_width + byte_width,
        ) + zeros(fill)
    }
}

/// The bytes of the BMP file for an image: the two headers, the colour
/// table in blue, green, red order, and the rows from the last upwards.
pub open spec fn bmp_file(image: SpriteView) -> Seq<u8> {
    bmp_header_bytes(image.width, image.height, image.bit_depth) + color_table(
        image.palette,
        two_to(image.bit_depth as nat),
        true,
    ) + bmp_rows(
        display_units(image),
        image.height as int,
        bmp_byte_width(image),
        bmp_row_len(image) - bmp_byte_width(image),
        image.height as nat,
    )
}

/// Builds the bytes of a BMP file with a core header and a colour table.
/// Nothing is built where `bmp_writable` does not hold.
pub fn make_bmp(data: SpriteData) -> (result: Option<Vec<u8>>)
    ensures
        result is Some <==> bmp_writable(data@),
        result is Some ==> result->0@ == bmp_file(data@),
{
    proof {
        lemma_two_to_values();
    }
    if (data.bit_depth != 4 && data.bit_depth != 8) || data.height == 0 {
        return None;
    }
    let colors: usize = if data.bit_depth == 4 {
        16
    } else {
        256
    };
    let row_bits: u32 = if data.bit_depth == 4 {
        4 * data.width as u32
    } else {
        8 * data.width as u32
    };
    assert(row_bits == data.bit_depth * data.width);
    if row_bits + 31 > 0xFFFF {
        return None;
    }
    if data.palette.len() != 0 && data.palette.len() < 4 * colors {
        return None;
    }
    let ghost image = data@;
    let row_length: usize = ((row_bits as usize + 31) / 32) * 4;
    let height: usize = data.height as usize;
    let table = make_color_table(&data.palette, colors, true);
    let header = bmp_header(data.width, data.height, data.bit_depth);
    let byte_vector = if data.bit_depth == 4 {
        bpp_to_4(data.pixels, false)
    } else {
        data.pixels
    };
    assert(byte_vector@ == display_units(image));
    let byte_width: usize = byte_vector.len() / height;
    if byte_width > row_length {
        return None;
    }
    let padding: usize = row_length - byte_width;
    let mut file = header;
    append(&mut file, &table);
    let ghost front = file@;
    assert(height * byte_width <= byte_vector.len()) by (nonlinear_arith)
        requires
            byte_width == byte_vector.len() / height,
            height > 0,
    ;
    let mut done: usize = 0;
    while done < height
        invariant
            done <= height,
            height * byte_width <= byte_vector.len(),
            file@ == front + bmp_rows(
                byte_vector@,
                height as int,
                byte_width as int,
                padding as int,
                done as nat,
            ),
        decreases height - done,
    {
        let y: usize = height - 1 - done;
        assert(0 <= y * byte_width && y * byte_width + byte_width <= height * byte_width)
            by (nonlinear_arith)
            requires
                0 <= y < height,
                0 <= byte_width,
        ;
        let row_start: usize = y * byte_width;
        let ghost before = file@;
        append_range(&mut file, &byte_vector, row_start, byte_width);
        append_zeros(&mut file, padding);
        done += 1;
        assert(file@ =~= front + bmp_rows(
            byte_vector@,
            height as int,
            byte_width as int,
            padding as int,
            done as nat,
        ));
    }
    Some(file)
}

/// What a PNG encoder is handed for an image: the pixel data, the palette
/// as RGB triples and the alpha of each palette entry.
pub struct PngParts {
    pub pixels: Vec<u8>,
    pub palette: Vec<u8>,
    pub transparency: Vec<u8>,
}

/// The alpha of each of `colors` palette entries: the fourth channel of
/// the entry, or fully opaque without a palette.
pub open spec fn alpha_table(palette: Seq<u8>, colors: int) -> Seq<u8> {
    Seq::new(
        colors as nat,
        |i: int|
            if palette.len() == 0 {
                0xFFu8
            } else {
                palette[4 * i + 3]
            },
    )
}

/// Whether a PNG file can be made from an image: the bit depth is 4 or 8
/// and the palette is absent or complete.
pub open spec fn png_writable(image: SpriteView) -> bool {
    &&& depth_supported(image.bit_depth)
    &&& image.palette.len() == 0 || image.palette.len() >= 4 * two_to(image.bit_depth as nat)
}

/// Prepares what a PNG encoder needs for an indexed image: the pixels,
/// packed at 4 bits with the first pixel of a pair in the high nibble, the
/// palette in red, green, blue order, a grey ramp where the image has
/// none, and the alpha of each entry. Nothing is prepared where
/// `png_writable` does not hold.
pub fn make_png(data: SpriteData) -> (result: Option<PngParts>)
    ensures
        result is Some <==> png_writable(data@),
        result is Some ==> {
            let parts = result->0;
            let colors = two_to(data.bit_depth as nat);
            &&& parts.pixels@ == display_units(data@)
            &&& parts.palette@ == color_table(data.palette@, colors, false)
            &&& parts.transparency@ == alpha_table(data.palette@, colors)
        },
{
    proof {
        lemma_two_to_values();
    }
    if data.bit_depth != 4 && data.bit_depth != 8 {
        return None;
    }
    let colors: usize = if data.bit_depth == 4 {
        16
    } else {
        256
    };
    if data.palette.len() != 0 && data.palette.len() < 4 * colors {
        return None;
    }
    let palette = make_color_table(&data.palette, colors, false);
    let mut transparency: Vec<u8> = Vec::new();
    let mut color: usize = 0;
    while color < colors
        invariant
            color <= colors,
            data.palette.len() == 0 || data.palette.len() >= 4 * colors,
            transparency@ == alpha_table(data.palette@, colors as int).take(color as int),
        decreases colors - color,
    {
        if data.palette.len() == 0 {
            transparency.push(0xFF);
        } else {
            transparency.push(data.palette[4 * color + 3]);
        }
        color += 1;
        assert(transparency@ =~= alpha_table(data.palette@, colors as int).take(color as int));
    }
    assert(transparency@ =~= alpha_table(data.palette@, colors as int));
    let pixels = if data.bit_depth == 4 {
        bpp_to_4(data.pixels, false)
    } else {
        data.pixels
    };
    Some(PngParts { pixels, palette, transparency })
}

} // verus!
