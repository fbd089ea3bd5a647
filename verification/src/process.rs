//! What happens to an image between reading and writing: trimming,
//! reindexing, the choice of bit depth and the making of the palette.

use vstd::prelude::*;
use crate::bitstream::{lemma_two_to_values, two_to};
use crate::shared_types::{Parameters, SpriteData, SpriteView};
use crate::sprite_compress::fitted;
use crate::sprite_transform::{
    first_channels, indexed_as_rgb, reindexed, rows_hold, rows_trimmed, transform_index,
    trim_padding,
};

verus! {

/// The alpha that a palette entry gets where none is known: the first
/// entry of every group of 32 and the ninth of every group but the first
/// are transparent, the others half opaque.
pub open spec fn default_alpha(index: int) -> u8 {
    if (index / 16) % 2 == 0 && index % 8 == 0 && index != 8 {
        0x00u8
    } else {
        0x80u8
    }
}

/// The default alpha of the palette entry `index`.
pub fn alpha_for(index: usize) -> (alpha: u8)
    ensures
        alpha == default_alpha(index as int),
{
    if (index / 16) % 2 == 0 && index % 8 == 0 && index != 8 {
        0x00
    } else {
        0x80
    }
}

/// Every pixel reindexed.
pub open spec fn all_reindexed(pixels: Seq<u8>) -> Seq<u8> {
    Seq::new(pixels.len(), |i: int| reindexed(pixels[i]))
}

/// Reindexes every pixel in place.
pub fn reindex_pixels(pixels: &mut Vec<u8>)
    ensures
        final(pixels)@ == all_reindexed(old(pixels)@),
{
    let ghost before = pixels@;
    let mut index: usize = 0;
    while index < pixels.len()
        invariant
            index <= pixels.len(),
            pixels@.len() == before.len(),
            forall|i: int| 0 <= i < index ==> #[trigger] pixels@[i] == reindexed(before[i]),
            forall|i: int| index <= i < before.len() ==> #[trigger] pixels@[i] == before[i],
        decreases pixels.len() - index,
    {
        let moved = transform_index(pixels[index]);
        pixels.set(index, moved);
        index += 1;
    }
    assert(pixels@ =~= all_reindexed(before));
}

/// The bit depth of the output: the forced one where one is forced, else
/// that of the source, but at least 4.
pub open spec fn chosen_depth(forced: bool, forced_depth: usize, depth: u16) -> u16 {
    if forced {
        (forced_depth as int % 0x1_0000) as u16
    } else if depth < 4 {
        4u16
    } else {
        depth
    }
}

/// Chooses the bit depth of the output.
pub fn output_depth(forced: bool, forced_depth: usize, depth: u16) -> (chosen: u16)
    ensures
        chosen == chosen_depth(forced, forced_depth, depth),
{
    if forced {
        (forced_depth % 0x1_0000) as u16
    } else if depth < 4 {
        4
    } else {
        depth
    }
}

/// A palette carried over from the source, brought to `colors` entries.
/// One that is too short gets black entries with the default alpha, the
/// first added entry counting as entry 0; one that is too long is cut.
pub open spec fn carried_palette(palette: Seq<u8>, colors: int) -> Seq<u8> {
    if palette.len() < 4 * colors {
        palette + Seq::new(
            (4 * (colors - palette.len() as int / 4)) as nat,
            |i: int|
                if i % 4 == 3 {
                    default_alpha(i / 4)
                } else {
                    0u8
                },
        )
    } else {
        palette.take(4 * colors)
    }
}

/// Brings a palette carried over from the source to `colors` entries.
pub fn carry_palette(palette: Vec<u8>, colors: usize) -> (carried: Vec<u8>)
    requires
        colors <= 0x1_0000,
    ensures
        carried@ == carried_palette(palette@, colors as int),
{
    let mut carried = palette;
    let ghost before = carried@;
    let ghost want = carried_palette(before, colors as int);
    if carried.len() < 4 * colors {
        let missing: usize = colors - carried.len() / 4;
        let mut index: usize = 0;
        while index < missing
            invariant
                index <= missing,
                missing == colors - before.len() / 4,
                before.len() < 4 * colors,
                want == carried_palette(before, colors as int),
                carried@.len() == before.len() + 4 * index,
                forall|i: int| 0 <= i < carried@.len() ==> #[trigger] carried@[i] == want[i],
            decreases missing - index,
        {
            carried.push(0x00);
            carried.push(0x00);
            carried.push(0x00);
            carried.push(alpha_for(index));
            index += 1;
        }
        assert(carried@ =~= want);
    } else {
        carried.truncate(colors * 4);
        assert(carried@ =~= want);
    }
    carried
}

/// A palette read as RGB triples, with a half-opaque alpha after every
/// whole triple.
pub open spec fn rgb_palette(bytes: Seq<u8>) -> Seq<u8> {
    Seq::new(
        bytes.len() + bytes.len() / 3,
        |i: int|
            if i % 4 == 3 {
                0x80u8
            } else {
                bytes[i / 4 * 3 + i % 4]
            },
    )
}

/// Reads a palette of RGB triples into RGBA quads.
pub fn palette_from_rgb(bytes: &Vec<u8>) -> (palette: Vec<u8>)
    ensures
        palette@ == rgb_palette(bytes@),
{
    let mut palette: Vec<u8> = Vec::new();
    let ghost want = rgb_palette(bytes@);
    let mut index: usize = 0;
    while index < bytes.len()
        invariant
            index <= bytes.len(),
            want == rgb_palette(bytes@),
            palette@.len() == index + index / 3,
            forall|i: int| 0 <= i < palette@.len() ==> #[trigger] palette@[i] == want[i],
        decreases bytes.len() - index,
    {
        let ghost at = palette@.len() as int;
        assert(at / 4 * 3 + at % 4 == index && at % 4 != 3);
        palette.push(bytes[index]);
        if index % 3 == 2 {
            palette.push(0x80);
        }
        index += 1;
    }
    assert(palette@ =~= want);
    palette
}

/// A palette of exactly `colors` entries with its alpha set anew: fully
/// opaque if `opaque`, else the default alpha. Missing entries are black.
pub open spec fn alpha_palette(palette: Seq<u8>, colors: int, opaque: bool) -> Seq<u8> {
    Seq::new(
        (4 * colors) as nat,
        |i: int|
            if i % 4 == 3 {
                if opaque {
                    0xFFu8
                } else {
                    default_alpha(i / 4)
                }
            } else if i < palette.len() {
                palette[i]
            } else {
                0u8
            },
    )
}

/// Brings a palette to `colors` entries and sets the alpha of each.
pub fn set_alpha(palette: Vec<u8>, colors: usize, opaque: bool) -> (done: Vec<u8>)
    requires
        colors <= 0x1_0000,
    ensures
        done@ == alpha_palette(palette@, colors as int, opaque),
{
    let mut done = palette;
    let ghost before = done@;
    let ghost want = alpha_palette(before, colors as int, opaque);
    crate::sprite_compress::fit(&mut done, colors * 4);
    let mut index: usize = 0;
    while index < colors
        invariant
            index <= colors <= 0x1_0000,
            done@.len() == 4 * colors,
            want == alpha_palette(before, colors as int, opaque),
            forall|i: int|
                0 <= i < 4 * colors && !(i % 4 == 3 && i / 4 < index) ==> #[trigger] done@[i]
                    == fitted(before, 4 * colors)[i],
            forall|i: int|
                0 <= i < 4 * colors && i % 4 == 3 && i / 4 < index ==> #[trigger] done@[i]
                    == want[i],
        decreases colors - index,
    {
        let alpha: u8 = if opaque {
            0xFF
        } else {
            alpha_for(index)
        };
        done.set(4 * index + 3, alpha);
        index += 1;
    }
    assert(done@ =~= want);
    done
}

/// The number of colours of a palette for `depth`.
pub fn color_count(depth: u16) -> (colors: usize)
    requires
        depth <= 16,
    ensures
        colors == two_to(depth as nat),
        colors <= 0x1_0000,
{
    let mut colors: usize = 1;
    let mut done: u16 = 0;
    proof {
        lemma_two_to_values();
    }
    while done < depth
        invariant
            done <= depth <= 16,
            colors == two_to(done as nat),
            colors <= two_to(16),
            two_to(16) == 0x1_0000,
        decreases depth - done,
    {
        proof {
            lemma_two_to_grows(done as nat + 1, 16);
        }
        colors = colors * 2;
        done += 1;
    }
    colors
}

/// Powers of two grow with the exponent.
pub proof fn lemma_two_to_grows(low: nat, high: nat)
    requires
        low <= high,
    ensures
        0 < two_to(low) <= two_to(high),
    decreases high,
{
    if low < high {
        lemma_two_to_grows(low, (high - 1) as nat);
    } else {
        lemma_two_to_positive(low);
    }
}

/// Powers of two are positive.
pub proof fn lemma_two_to_positive(n: nat)
    ensures
        0 < two_to(n),
    decreases n,
{
    if n > 0 {
        lemma_two_to_positive((n - 1) as nat);
    }
}

/// The choices of a run that bear on an image, and the bytes of the
/// palette file where one was asked for and read.
pub struct Choices {
    pub reindex: bool,
    pub as_rgb: bool,
    pub forced_bit_depth: bool,
    pub bit_depth: usize,
    pub palette_transfer: bool,
    pub opaque: bool,
    pub palette_bytes: Option<Seq<u8>>,
}

/// The choices that `parameters` make, with the palette file's bytes.
pub open spec fn choices_of(parameters: Parameters, palette_bytes: Option<Seq<u8>>) -> Choices {
    Choices {
        reindex: parameters.reindex,
        as_rgb: parameters.as_rgb,
        forced_bit_depth: parameters.forced_bit_depth,
        bit_depth: parameters.bit_depth,
        palette_transfer: parameters.palette_transfer,
        opaque: parameters.opaque,
        palette_bytes,
    }
}

/// The pixels after trimming and, where asked for, reindexing.
pub open spec fn placed_pixels(image: SpriteView, choices: Choices) -> Seq<u8> {
    let trimmed = rows_trimmed(image.pixels, image.width as int, image.height as int);
    if choices.reindex {
        all_reindexed(trimmed)
    } else {
        trimmed
    }
}

/// Whether the source palette is looked up for every pixel.
pub open spec fn looks_up(image: SpriteView, choices: Choices) -> bool {
    image.palette.len() > 0 && choices.as_rgb
}

/// The palette of the output. A palette carried over from the source
/// comes first, and gets its alpha set anew only if it is to be opaque;
/// else the palette file, whose alpha is always set; else none.
pub open spec fn made_palette(image: SpriteView, choices: Choices, colors: int) -> Seq<u8> {
    if choices.palette_transfer {
        let carried = if image.palette.len() == 0 {
            Seq::empty()
        } else {
            carried_palette(image.palette, colors)
        };
        if choices.opaque {
            alpha_palette(carried, colors, true)
        } else {
            carried
        }
    } else {
        match choices.palette_bytes {
            Some(bytes) => alpha_palette(rgb_palette(bytes), colors, choices.opaque),
            None => Seq::empty(),
        }
    }
}

/// Whether an image can be processed: it has pixels for all its rows, a
/// palette entry for every pixel that is looked up, and a bit depth of at
/// most 16 in the end.
pub open spec fn processable(image: SpriteView, choices: Choices) -> bool {
    &&& rows_hold(image.pixels, image.width as int, image.height as int)
    &&& looks_up(image, choices) ==> forall|i: int|
        0 <= i < placed_pixels(image, choices).len() ==> 4 * (#[trigger] placed_pixels(
            image,
            choices,
        )[i]) < image.palette.len()
    &&& chosen_depth(choices.forced_bit_depth, choices.bit_depth, image.bit_depth) <= 16
}

/// The image as it is handed to a writer.
pub open spec fn processed(image: SpriteView, choices: Choices) -> SpriteView {
    let depth = chosen_depth(choices.forced_bit_depth, choices.bit_depth, image.bit_depth);
    let placed = placed_pixels(image, choices);
    SpriteView {
        width: image.width,
        height: image.height,
        bit_depth: depth,
        pixels: if looks_up(image, choices) {
            first_channels(placed, image.palette)
        } else {
            placed
        },
        palette: made_palette(image, choices, two_to(depth as nat)),
    }
}

/// The view of an optional byte vector.
pub open spec fn bytes_view(bytes: Option<Vec<u8>>) -> Option<Seq<u8>> {
    match bytes {
        Some(bytes) => Some(bytes@),
        None => None,
    }
}

/// Tells whether `process_sprite` accepts an image.
pub fn can_process(data: &SpriteData, parameters: &Parameters) -> (accepted: bool)
    requires
        data.width > 0,
        data.height > 0,
    ensures
        accepted == processable(data@, choices_of(*parameters, None)),
{
    let ghost choices = choices_of(*parameters, None);
    let width = data.width as usize;
    let height = data.height as usize;
    let len = data.pixels.len();
    let row = len / height;
    assert((height - 1) * row <= len) by (nonlinear_arith)
        requires
            row == len / height,
            height > 0,
    ;
    if len - (height - 1) * row < width {
        return false;
    }
    if output_depth(parameters.forced_bit_depth, parameters.bit_depth, data.bit_depth) > 16 {
        return false;
    }
    if data.palette.len() == 0 || !parameters.as_rgb {
        return true;
    }
    let ghost placed = placed_pixels(data@, choices);
    assert(0 <= width * height <= 0xFFFF * 0xFFFF) by (nonlinear_arith)
        requires
            0 < width <= 0xFFFF,
            0 < height <= 0xFFFF,
    ;
    let mut y: usize = 0;
    while y < height
        invariant
            y <= height,
            0 < width <= 0xFFFF,
            0 < height <= 0xFFFF,
            width == data.width,
            height == data.height,
            len == data.pixels.len(),
            row == len / height,
            (height - 1) * row + width <= len,
            choices == choices_of(*parameters, None),
            looks_up(data@, choices),
            placed == placed_pixels(data@, choices),
            placed.len() == height * width,
            forall|i: int| 0 <= i < y * width ==> 4 * (#[trigger] placed[i]) < data.palette.len(),
        decreases height - y,
    {
        proof {
            assert(0 <= y * row <= (height - 1) * row) by (nonlinear_arith)
                requires
                    0 <= y < height,
                    0 <= row,
            ;
            assert(0 <= y * width && y * width + width <= height * width) by (nonlinear_arith)
                requires
                    0 <= y < height,
                    0 < width,
            ;
        }
        let mut x: usize = 0;
        while x < width
            invariant
                x <= width,
                y < height,
                0 < width <= 0xFFFF,
                width == data.width,
                height == data.height,
                len == data.pixels.len(),
                row == len / height,
                0 <= y * row,
                y * row + width <= len,
                0 <= y * width,
                y * width + width <= height * width,
                choices == choices_of(*parameters, None),
                looks_up(data@, choices),
                placed == placed_pixels(data@, choices),
                placed.len() == height * width,
                forall|i: int|
                    0 <= i < y * width + x ==> 4 * (#[trigger] placed[i]) < data.palette.len(),
            decreases width - x,
        {
            let pixel = data.pixels[y * row + x];
            let moved = if parameters.reindex {
                transform_index(pixel)
            } else {
                pixel
            };
            proof {
                lemma_place(y as int, x as int, width as int);
                assert(placed[y * width + x] == moved);
            }
            if 4 * (moved as usize) >= data.palette.len() {
                assert(!processable(data@, choices)) by {
                    assert(0 <= y * width + x < placed.len());
                    assert(4 * placed_pixels(data@, choices)[y * width + x] >= data.palette.len());
                }
                return false;
            }
            x += 1;
        }
        proof {
            assert(y * width + width == (y + 1) * width) by (nonlinear_arith);
        }
        y += 1;
    }
    true
}

proof fn lemma_place(y: int, x: int, row: int)
    requires
        0 <= y,
        0 <= x < row,
    ensures
        (y * row + x) / row == y,
        (y * row + x) % row == x,
{
    vstd::arithmetic::div_mod::lemma_fundamental_div_mod_converse(y * row + x, row, y, x);
}

/// Prepares an image for writing.
///
/// The rows are trimmed to the width of the image. The pixels are
/// reindexed where that is asked for, and replaced by the first channel of
/// their palette entries where the source has a palette and is to be read
/// as RGB. The bit depth is the forced one, or that of the source and at
/// least 4. The palette is the one carried over from the source, or the
/// one read from `palette_bytes`, or empty. `palette_bytes` holds the
/// bytes of the palette file where one was asked for and could be read.
///
/// Nothing is prepared, and `None` returned, for an image without width or
/// height.
pub fn process_sprite(
    data: SpriteData,
    parameters: &Parameters,
    palette_bytes: Option<Vec<u8>>,
) -> (result: Option<SpriteData>)
    requires
        data.width > 0 && data.height > 0 ==> processable(
            data@,
            choices_of(*parameters, bytes_view(palette_bytes)),
        ),
    ensures
        match result {
            Some(ready) => data.width > 0 && data.height > 0 && ready@ == processed(
                data@,
                choices_of(*parameters, bytes_view(palette_bytes)),
            ),
            None => data.width == 0 || data.height == 0,
        },
{
    if data.width == 0 || data.height == 0 {
        return None;
    }
    let ghost image = data@;
    let ghost choices = choices_of(*parameters, bytes_view(palette_bytes));
    let mut pixels = trim_padding(data.pixels, data.width as usize, data.height as usize);
    if parameters.reindex {
        reindex_pixels(&mut pixels);
    }
    assert(pixels@ == placed_pixels(image, choices));
    if data.palette.len() > 0 && parameters.as_rgb {
        pixels = indexed_as_rgb(pixels, &data.palette);
    }
    let depth = output_depth(parameters.forced_bit_depth, parameters.bit_depth, data.bit_depth);
    let colors = color_count(depth);
    let palette: Vec<u8> = if parameters.palette_transfer {
        let carried = if data.palette.len() == 0 {
            Vec::new()
        } else {
            carry_palette(data.palette, colors)
        };
        if parameters.opaque {
            set_alpha(carried, colors, true)
        } else {
            carried
        }
    } else {
        match palette_bytes {
            Some(bytes) => set_alpha(palette_from_rgb(&bytes), colors, parameters.opaque),
            None => Vec::new(),
        }
    };
    Some(SpriteData { width: data.width, height: data.height, bit_depth: depth, pixels, palette })
}

} // verus!
