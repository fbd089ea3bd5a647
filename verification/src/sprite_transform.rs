//! Conversions on pixel vectors: reindexing, bit-depth unpacking and
//! packing, and the row padding of formats that align their rows.

use vstd::prelude::*;
use crate::bit_depth::{bpp_4to8, bpp_8to4, pack8to4, unpack4to8};

verus! {

/// The palette index that `value` is exchanged with: in every group of 32
/// indices, the second and the third block of 8 change places.
pub open spec fn reindexed(value: u8) -> u8 {
    if (value / 8 + 2) % 4 == 0 {
        (value - 8) as u8
    } else if (value / 8 + 3) % 4 == 0 {
        (value + 8) as u8
    } else {
        value
    }
}

/// Exchanges the second and third block of 8 indices in every group of 32;
/// other indices pass through.
pub fn transform_index(value: u8) -> (moved: u8)
    ensures
        moved == reindexed(value),
{
    if ((value / 8) + 2) % 4 == 0 {
        value - 8
    } else if ((value / 8) + 3) % 4 == 0 {
        value + 8
    } else {
        value
    }
}

/// Reindexing twice gives the index back.
pub proof fn lemma_reindexed_twice(value: u8)
    ensures
        reindexed(reindexed(value)) == value,
{
}

/// The first channel of the palette entry of each pixel.
pub open spec fn first_channels(pixels: Seq<u8>, palette: Seq<u8>) -> Seq<u8> {
    Seq::new(pixels.len(), |i: int| palette[4 * pixels[i] as int])
}

/// Replaces each pixel by the first channel of its palette entry. Every
/// pixel must have an entry in the palette.
pub fn indexed_as_rgb(input_pixels: Vec<u8>, palette: &Vec<u8>) -> (output_pixels: Vec<u8>)
    requires
        forall|i: int|
            0 <= i < input_pixels.len() ==> 4 * (#[trigger] input_pixels[i]) < palette.len(),
    ensures
        output_pixels@ == first_channels(input_pixels@, palette@),
{
    let mut output_pixels: Vec<u8> = Vec::new();
    let mut pixel: usize = 0;
    while pixel < input_pixels.len()
        invariant
            pixel <= input_pixels.len(),
            forall|i: int|
                0 <= i < input_pixels.len() ==> 4 * (#[trigger] input_pixels[i]) < palette.len(),
            output_pixels@ == first_channels(input_pixels@, palette@).take(pixel as int),
        decreases input_pixels.len() - pixel,
    {
        let index: usize = 4 * (input_pixels[pixel] as usize);
        output_pixels.push(palette[index]);
        pixel += 1;
        assert(output_pixels@ =~= first_channels(input_pixels@, palette@).take(pixel as int));
    }
    assert(output_pixels@ =~= first_channels(input_pixels@, palette@));
    output_pixels
}

/// The `width`-bit field of `byte` that starts `shift` bits above the
/// lowest.
pub open spec fn bit_field(byte: u8, shift: u8, mask: u8) -> u8 {
    (byte >> shift) & mask
}

/// One pixel per bit: with `flip` the lowest bit of each byte first,
/// without it the highest.
pub open spec fn unpack1(bytes: Seq<u8>, flip: bool) -> Seq<u8> {
    Seq::new(
        8 * bytes.len(),
        |i: int|
            bit_field(
                bytes[i / 8],
                if flip {
                    (i % 8) as u8
                } else {
                    (7 - i % 8) as u8
                },
                1,
            ),
    )
}

/// One pixel per pair of bits: with `flip` the lowest pair of each byte
/// first, without it the highest.
pub open spec fn unpack2(bytes: Seq<u8>, flip: bool) -> Seq<u8> {
    Seq::new(
        4 * bytes.len(),
        |i: int|
            bit_field(
                bytes[i / 4],
                if flip {
                    (2 * (i % 4)) as u8
                } else {
                    (6 - 2 * (i % 4)) as u8
                },
                3,
            ),
    )
}

/// Unpacks 1-bit pixels, eight to a byte. With `flip` the lowest bit of a
/// byte is its first pixel, without it the highest.
pub fn bpp_from_1(input_pixels: Vec<u8>, flip: bool) -> (output_pixels: Vec<u8>)
    ensures
        output_pixels@ == unpack1(input_pixels@, flip),
{
    let mut output_pixels: Vec<u8> = Vec::new();
    let mut index: usize = 0;
    while index < input_pixels.len()
        invariant
            index <= input_pixels.len(),
            output_pixels@ == unpack1(input_pixels@, flip).take(8 * index),
        decreases input_pixels.len() - index,
    {
        let byte: u8 = input_pixels[index];
        let mut place: u8 = 0;
        while place < 8
            invariant
                place <= 8,
                index < input_pixels.len(),
                byte == input_pixels[index as int],
                output_pixels@ == unpack1(input_pixels@, flip).take(8 * index + place),
            decreases 8 - place,
        {
            let shift: u8 = if flip {
                place
            } else {
                7 - place
            };
            output_pixels.push((byte >> shift) & 0x1);
            place += 1;
            assert(output_pixels@ =~= unpack1(input_pixels@, flip).take(8 * index + place));
        }
        index += 1;
    }
    assert(output_pixels@ =~= unpack1(input_pixels@, flip));
    output_pixels
}

/// Unpacks 2-bit pixels, four to a byte. With `flip` the lowest pair of
/// bits of a byte is its first pixel, without it the highest.
pub fn bpp_from_2(input_pixels: Vec<u8>, flip: bool) -> (output_pixels: Vec<u8>)
    ensures
        output_pixels@ == unpack2(input_pixels@, flip),
{
    let mut output_pixels: Vec<u8> = Vec::new();
    let mut index: usize = 0;
    while index < input_pixels.len()
        invariant
            index <= input_pixels.len(),
            output_pixels@ == unpack2(input_pixels@, flip).take(4 * index),
        decreases input_pixels.len() - index,
    {
        let byte: u8 = input_pixels[index];
        let mut place: u8 = 0;
        while place < 4
            invariant
                place <= 4,
                index < input_pixels.len(),
                byte == input_pixels[index as int],
                output_pixels@ == unpack2(input_pixels@, flip).take(4 * index + place),
            decreases 4 - place,
        {
            let shift: u8 = if flip {
                2 * place
            } else {
                6 - 2 * place
            };
            output_pixels.push((byte >> shift) & 0x3);
            place += 1;
            assert(output_pixels@ =~= unpack2(input_pixels@, flip).take(4 * index + place));
        }
        index += 1;
    }
    assert(output_pixels@ =~= unpack2(input_pixels@, flip));
    output_pixels
}

/// Packs pixels two to a byte, each clamped to four bits. With `flip` the
/// first pixel of a pair goes to the low nibble, without it to the high
/// nibble; a last pixel without a partner is packed with a zero.
pub fn bpp_to_4(input_pixels: Vec<u8>, flip: bool) -> (output_pixels: Vec<u8>)
    ensures
        output_pixels@ == pack8to4(input_pixels@, !flip),
{
    bpp_4to8(input_pixels, flip)
}

/// Unpacks 4-bit pixels, two to a byte. With `flip` the low nibble comes
/// first, without it the high nibble.
pub fn bpp_from_4(input_pixels: Vec<u8>, flip: bool) -> (output_pixels: Vec<u8>)
    ensures
        output_pixels@ == unpack4to8(input_pixels@, !flip),
{
    bpp_8to4(input_pixels, flip)
}

/// Rows of `width + width % 2` pixels: each row of `pixels`, which holds
/// `height` rows, followed by a zero where its width is odd.
pub open spec fn rows_aligned(pixels: Seq<u8>, height: int) -> Seq<u8> {
    let width = pixels.len() as int / height;
    let row = width + width % 2;
    Seq::new(
        (height * row) as nat,
        |i: int|
            if i % row < width {
                pixels[(i / row) * width + i % row]
            } else {
                0u8
            },
    )
}

/// Rows of `width` pixels: the first `width` pixels of each row of
/// `pixels`, which holds `height` rows.
pub open spec fn rows_trimmed(pixels: Seq<u8>, width: int, height: int) -> Seq<u8> {
    let row = pixels.len() as int / height;
    Seq::new((height * width) as nat, |i: int| pixels[(i / width) * row + i % width])
}

proof fn lemma_row_place(y: int, x: int, row: int)
    requires
        0 <= y,
        0 <= x < row,
    ensures
        (y * row + x) / row == y,
        (y * row + x) % row == x,
        y * row + row == (y + 1) * row,
{
    vstd::arithmetic::div_mod::lemma_fundamental_div_mod_converse(y * row + x, row, y, x);
    assert(y * row + row == (y + 1) * row) by (nonlinear_arith);
}

proof fn lemma_rows_within(y: int, height: int, row: int, len: int)
    requires
        0 <= y < height,
        0 <= row,
        height * row <= len,
    ensures
        (y + 1) * row <= len,
        y * row + row <= len,
        0 <= y * row,
{
    assert((y + 1) * row <= height * row && y * row + row == (y + 1) * row) by (nonlinear_arith)
        requires
            0 <= y < height,
            0 <= row,
    ;
    assert(0 <= y * row) by (nonlinear_arith)
        requires
            0 <= y,
            0 <= row,
    ;
}

/// Lays the pixels out in `height` rows and follows each row of odd width
/// with a zero. The width is the number of pixels divided by `height`,
/// rounded down; pixels beyond the last whole row are dropped.
pub fn align_to_4(input_pixels: Vec<u8>, height: usize) -> (output_pixels: Vec<u8>)
    requires
        height > 0,
    ensures
        output_pixels@ == rows_aligned(input_pixels@, height as int),
{
    let mut output_pixels: Vec<u8> = Vec::new();
    let width: usize = input_pixels.len() / height;
    let padding: usize = width % 2;
    let ghost row: int = width + padding;
    let ghost want = rows_aligned(input_pixels@, height as int);
    proof {
        assert(height * width <= input_pixels.len()) by (nonlinear_arith)
            requires
                width == input_pixels.len() / height,
                height > 0,
        ;
    }
    let mut y: usize = 0;
    while y < height
        invariant
            y <= height,
            width == input_pixels.len() / height,
            padding == width % 2,
            row == width + padding,
            height * width <= input_pixels.len(),
            want == rows_aligned(input_pixels@, height as int),
            output_pixels@.len() == y * row,
            forall|i: int| 0 <= i < y * row ==> #[trigger] output_pixels@[i] == want[i],
        decreases height - y,
    {
        proof {
            lemma_rows_within(y as int, height as int, width as int, input_pixels.len() as int);
            lemma_rows_within(y as int, height as int, row, height * row);
        }
        let base: usize = y * width;
        let mut x: usize = 0;
        while x < width
            invariant
                x <= width,
                y < height,
                base == y * width,
                base + width <= input_pixels.len(),
                width == input_pixels.len() / height,
                row == width + width % 2,
                0 <= y * row,
                (y + 1) * row <= height * row,
                want == rows_aligned(input_pixels@, height as int),
                output_pixels@.len() == y * row + x,
                forall|i: int| 0 <= i < y * row + x ==> #[trigger] output_pixels@[i] == want[i],
            decreases width - x,
        {
            proof {
                lemma_row_place(y as int, x as int, row);
            }
            output_pixels.push(input_pixels[base + x]);
            x += 1;
        }
        if padding == 1 {
            proof {
                lemma_row_place(y as int, width as int, row);
            }
            output_pixels.push(0x00);
        }
        proof {
            assert(y * row + row == (y + 1) * row) by (nonlinear_arith);
        }
        y += 1;
    }
    assert(output_pixels@ =~= want);
    output_pixels
}

/// Whether `pixels`, laid out in `height` rows, holds `width` pixels in
/// each of them.
pub open spec fn rows_hold(pixels: Seq<u8>, width: int, height: int) -> bool {
    height > 0 && (width == 0 || (height - 1) * (pixels.len() as int / height) + width
        <= pixels.len())
}

/// Keeps the first `width` pixels of each of the `height` rows. The length
/// of a row is the number of pixels divided by `height`, rounded down.
pub fn trim_padding(input_pixels: Vec<u8>, width: usize, height: usize) -> (output_pixels: Vec<u8>)
    requires
        rows_hold(input_pixels@, width as int, height as int),
    ensures
        output_pixels@ == rows_trimmed(input_pixels@, width as int, height as int),
{
    let mut output_pixels: Vec<u8> = Vec::new();
    let row_width: usize = input_pixels.len() / height;
    let ghost want = rows_trimmed(input_pixels@, width as int, height as int);
    if width == 0 {
        assert(height * 0 == 0) by (nonlinear_arith);
        assert(output_pixels@ =~= want);
        return output_pixels;
    }
    let mut y: usize = 0;
    while y < height
        invariant
            y <= height,
            width > 0,
            row_width == input_pixels.len() / height,
            (height - 1) * row_width + width <= input_pixels.len(),
            want == rows_trimmed(input_pixels@, width as int, height as int),
            output_pixels@.len() == y * width,
            forall|i: int| 0 <= i < y * width ==> #[trigger] output_pixels@[i] == want[i],
        decreases height - y,
    {
        proof {
            assert(0 <= y * row_width <= (height - 1) * row_width) by (nonlinear_arith)
                requires
                    0 <= y < height,
                    0 <= row_width,
            ;
            lemma_rows_within(y as int, height as int, width as int, height * width);
        }
        let base: usize = y * row_width;
        let mut x: usize = 0;
        while x < width
            invariant
                x <= width,
                y < height,
                base == y * row_width,
                base + width <= input_pixels.len(),
                row_width == input_pixels.len() / height,
                0 <= y * width,
                (y + 1) * width <= height * width,
                want == rows_trimmed(input_pixels@, width as int, height as int),
                output_pixels@.len() == y * width + x,
                forall|i: int| 0 <= i < y * width + x ==> #[trigger] output_pixels@[i] == want[i],
            decreases width - x,
        {
            proof {
                lemma_row_place(y as int, x as int, width as int);
            }
            output_pixels.push(input_pixels[base + x]);
            x += 1;
        }
        proof {
            assert(y * width + width == (y + 1) * width) by (nonlinear_arith);
        }
        y += 1;
    }
    assert(output_pixels@ =~= want);
    output_pixels
}

} // verus!
