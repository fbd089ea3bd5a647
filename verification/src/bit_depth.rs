//! Packing of 4-bit pixels: two to a byte, in either nibble order.
//!
//! The functions here take the order as `flip`: with `flip` the first pixel
//! of a pair sits in the low nibble, without it in the high nibble. The
//! sprite files of the engine use `flip`; PNG and BMP do not.

use vstd::prelude::*;

verus! {

/// A pixel value cut down to what four bits hold.
pub open spec fn clamp_nibble(v: u8) -> u8 {
    if v > 15 {
        15u8
    } else {
        v
    }
}

/// The byte that holds the pixels `first` and `second`, each clamped to
/// four bits: `first` in the high nibble if `high_first`, else in the low.
pub open spec fn pair_byte(first: u8, second: u8, high_first: bool) -> u8 {
    if high_first {
        (16 * clamp_nibble(first) + clamp_nibble(second)) as u8
    } else {
        (16 * clamp_nibble(second) + clamp_nibble(first)) as u8
    }
}

/// Pixels packed two to a byte. A last pixel without a partner is packed
/// with a zero in the other nibble.
pub open spec fn pack8to4(pixels: Seq<u8>, high_first: bool) -> Seq<u8> {
    Seq::new(
        ((pixels.len() + 1) / 2) as nat,
        |i: int|
            pair_byte(
                pixels[2 * i],
                if 2 * i + 1 < pixels.len() {
                    pixels[2 * i + 1]
                } else {
                    0u8
                },
                high_first,
            ),
    )
}

/// The two pixels of each byte, one entry per pixel: the high nibble first
/// if `high_first`, else the low nibble first.
pub open spec fn unpack4to8(bytes: Seq<u8>, high_first: bool) -> Seq<u8> {
    Seq::new(
        2 * bytes.len(),
        |i: int|
            if (i % 2 == 0) == high_first {
                (bytes[i / 2] / 16) as u8
            } else {
                (bytes[i / 2] % 16) as u8
            },
    )
}

/// Whether every pixel fits in four bits.
pub open spec fn all_nibbles(pixels: Seq<u8>) -> bool {
    forall|i: int| 0 <= i < pixels.len() ==> #[trigger] pixels[i] < 16
}

fn clamp(v: u8) -> (c: u8)
    ensures
        c == clamp_nibble(v),
{
    if v > 0xF {
        0xF
    } else {
        v
    }
}

fn join(high: u8, low: u8) -> (b: u8)
    requires
        high < 16,
        low < 16,
    ensures
        b == 16 * high + low,
{
    assert((high << 4 | low & 0xF) == 16 * high + low) by (bit_vector)
        requires
            high < 16,
            low < 16,
    ;
    high << 4 | low & 0xF
}

/// Packs pixels two to a byte, each clamped to four bits. With `flip` the
/// first pixel of a pair goes to the low nibble, without it to the high
/// nibble. A last pixel without a partner is packed with a zero.
pub fn bpp_4to8(input_pixels: Vec<u8>, flip: bool) -> (output_pixels: Vec<u8>)
    ensures
        output_pixels@ == pack8to4(input_pixels@, !flip),
{
    let len = input_pixels.len();
    let pairs = len / 2;
    let mut output_pixels: Vec<u8> = Vec::new();
    let mut pair: usize = 0;
    while pair < pairs
        invariant
            len == input_pixels.len(),
            pairs == len / 2,
            pair <= pairs,
            output_pixels@ == pack8to4(input_pixels@, !flip).take(pair as int),
        decreases pairs - pair,
    {
        let first = clamp(input_pixels[2 * pair]);
        let second = clamp(input_pixels[2 * pair + 1]);
        let byte = if flip {
            join(second, first)
        } else {
            join(first, second)
        };
        output_pixels.push(byte);
        pair += 1;
        assert(output_pixels@ =~= pack8to4(input_pixels@, !flip).take(pair as int));
    }
    if len % 2 == 1 {
        let last = clamp(input_pixels[len - 1]);
        let byte = if flip {
            join(0, last)
        } else {
            join(last, 0)
        };
        output_pixels.push(byte);
    }
    assert(output_pixels@ =~= pack8to4(input_pixels@, !flip));
    output_pixels
}

/// Unpacks bytes into two pixels each. With `flip` the low nibble comes
/// first, without it the high nibble.
pub fn bpp_8to4(input_pixels: Vec<u8>, flip: bool) -> (output_pixels: Vec<u8>)
    ensures
        output_pixels@ == unpack4to8(input_pixels@, !flip),
{
    let mut output_pixels: Vec<u8> = Vec::new();
    let mut index: usize = 0;
    while index < input_pixels.len()
        invariant
            index <= input_pixels.len(),
            output_pixels@ == unpack4to8(input_pixels@, !flip).take(2 * index),
        decreases input_pixels.len() - index,
    {
        let byte = input_pixels[index];
        assert(byte & 0xF == byte % 16 && byte >> 4 == byte / 16) by (bit_vector);
        if flip {
            output_pixels.push(byte & 0xF);
            output_pixels.push(byte >> 4);
        } else {
            output_pixels.push(byte >> 4);
            output_pixels.push(byte & 0xF);
        }
        index += 1;
        assert(output_pixels@ =~= unpack4to8(input_pixels@, !flip).take(2 * index));
    }
    assert(output_pixels@ =~= unpack4to8(input_pixels@, !flip));
    output_pixels
}

/// Unpacking always yields two pixels per byte, each within four bits.
pub proof fn lemma_unpack_shape(bytes: Seq<u8>, high_first: bool)
    ensures
        unpack4to8(bytes, high_first).len() == 2 * bytes.len(),
        all_nibbles(unpack4to8(bytes, high_first)),
{
}

/// Packing yields one byte per pair of pixels, a last single pixel
/// counting as a pair.
pub proof fn lemma_pack_len(pixels: Seq<u8>, high_first: bool)
    ensures
        pack8to4(pixels, high_first).len() == (pixels.len() + 1) / 2,
{
}

/// Bytes that are unpacked and packed again, in the same order, are
/// unchanged.
pub proof fn lemma_pack_unpack(bytes: Seq<u8>, high_first: bool)
    ensures
        pack8to4(unpack4to8(bytes, high_first), high_first) == bytes,
{
    let pixels = unpack4to8(bytes, high_first);
    assert forall|i: int| 0 <= i < bytes.len() implies #[trigger] pack8to4(pixels, high_first)[i]
        == bytes[i] by {
        assert(pixels[2 * i] == if high_first {
            (bytes[i] / 16) as u8
        } else {
            (bytes[i] % 16) as u8
        });
        assert(pixels[2 * i + 1] == if high_first {
            (bytes[i] % 16) as u8
        } else {
            (bytes[i] / 16) as u8
        });
    }
    assert(pack8to4(pixels, high_first) =~= bytes);
}

/// Pixels within four bits that are packed and unpacked again, in the same
/// order, are unchanged, but for a zero that follows a last pixel without
/// a partner.
pub proof fn lemma_unpack_pack(pixels: Seq<u8>, high_first: bool)
    requires
        all_nibbles(pixels),
    ensures
        unpack4to8(pack8to4(pixels, high_first), high_first).take(pixels.len() as int) == pixels,
        pixels.len() % 2 == 1 ==> unpack4to8(pack8to4(pixels, high_first), high_first)
            == pixels.push(0u8),
{
    let bytes = pack8to4(pixels, high_first);
    let back = unpack4to8(bytes, high_first);
    assert forall|i: int| 0 <= i < pixels.len() implies #[trigger] back[i] == pixels[i] by {
        let k = i / 2;
        assert(pixels[2 * k] < 16);
        if 2 * k + 1 < pixels.len() {
            assert(pixels[2 * k + 1] < 16);
        }
    }
    assert(back.take(pixels.len() as int) =~= pixels);
    if pixels.len() % 2 == 1 {
        let last = pixels.len() as int;
        assert(pixels[last - 1] < 16);
        assert(back[last] == 0);
        assert(back =~= pixels.push(0u8));
    }
}

/// A sequence of even length with the two entries of each pair exchanged.
pub open spec fn swapped_pairs(pixels: Seq<u8>) -> Seq<u8>
    recommends
        pixels.len() % 2 == 0,
{
    Seq::new(
        pixels.len(),
        |i: int|
            if i % 2 == 0 {
                pixels[i + 1]
            } else {
                pixels[i - 1]
            },
    )
}

/// Unpacking in one nibble order and exchanging the pixels of each pair is
/// unpacking in the other order.
pub proof fn lemma_swapped_pairs(bytes: Seq<u8>, high_first: bool)
    ensures
        swapped_pairs(unpack4to8(bytes, high_first)) == unpack4to8(bytes, !high_first),
{
    assert(swapped_pairs(unpack4to8(bytes, high_first)) =~= unpack4to8(bytes, !high_first));
}

} // verus!
