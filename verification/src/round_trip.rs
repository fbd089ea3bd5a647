//! What is written can be read back: the decoder undoes the encoder, and a
//! file built from an image holds that image.

use vstd::prelude::*;
use crate::bin_header::{header_bytes, lemma_header_round_trip, parse_header};
use crate::bit_depth::{all_nibbles, lemma_unpack_pack, pack8to4, unpack4to8};
use crate::bitstream::{
    aligned, be_bits, bits_bytes, bits_value, bytes_bits, lemma_aligned_len, lemma_be_bits_len,
    lemma_bits_of_bytes, lemma_bytes_bits_concat, lemma_two_to_values, lemma_value_of_bits,
    two_to,
};
use crate::shared_types::{SpriteError, SpriteView};
use crate::sprite_compress::{
    copy_run, count_bytes, count_value, decode_tokens, decompressed, embedded_palette_len,
    encode, encode_from,
    lemma_payload_padding, lemma_tokens_bits_cons, next_position,
    padding, pad_len, payload_bytes, push_within, stream_units, swap_words, takes_match,
    token_at, token_bits, tokens_bits, unit_count, units_pixels, Token,
};
use crate::sprite_get::{loaded, stored};
use crate::sprite_make::{bin_file, bin_payload, header_for, stored_count};
use crate::window::{
    best_match, lemma_best_is_earliest_longest, lemma_run_matches, match_limit, repeats,
    window_origin,
};

verus! {

/// The scan moves forward with every token and never past the end.
pub proof fn lemma_next_position(pixels: Seq<u8>, position: int)
    requires
        0 <= position < pixels.len(),
    ensures
        position < next_position(pixels, position) <= pixels.len(),
        takes_match(pixels, position) ==> next_position(pixels, position) == position
            + best_match(pixels, position).1,
{
    lemma_best_is_earliest_longest(pixels, position, 510);
}

/// A match that the encoder emits fits its fields and its stream: the
/// offset takes 9 bits and the length less three 7 bits, the run copied
/// lies wholly before the position, and the run it stands for ends within
/// the stream.
pub proof fn lemma_match_fits(pixels: Seq<u8>, position: int)
    requires
        0 <= position < pixels.len(),
        takes_match(pixels, position),
    ensures
        ({
            let found = best_match(pixels, position);
            &&& 0 <= found.0 < 510
            &&& 3 <= found.1 <= 130
            &&& window_origin(position) + found.0 + found.1 <= position
            &&& position + found.1 <= pixels.len()
            &&& token_at(pixels, position) == (Token::Match {
                offset: found.0 as u16,
                length: found.1 as u16,
            })
        }),
{
    let found = best_match(pixels, position);
    let source = window_origin(position) + found.0;
    lemma_best_is_earliest_longest(pixels, position, 510);
    lemma_run_matches(pixels, position, source, match_limit(pixels, position), 0);
    assert(repeats(pixels, position, source, found.1 - 1));
}

/// There are no more tokens than values.
pub proof fn lemma_encode_len(pixels: Seq<u8>, position: int)
    requires
        0 <= position <= pixels.len(),
    ensures
        encode_from(pixels, position).len() <= pixels.len() - position,
    decreases pixels.len() - position,
{
    if position < pixels.len() {
        lemma_next_position(pixels, position);
        lemma_encode_len(pixels, next_position(pixels, position));
    }
}

/// A literal that heads a bit string is read back as it was written.
pub proof fn lemma_literal_fields(first: u8, second: u8, tail: Seq<bool>)
    ensures
        ({
            let bits = token_bits(Token::Literal { first, second }) + tail;
            &&& bits.len() >= 17
            &&& bits[0]
            &&& bits_value(bits.subrange(1, 9)) == first
            &&& bits_value(bits.subrange(9, 17)) == second
            &&& bits.skip(17) == tail
        }),
{
    let bits = token_bits(Token::Literal { first, second }) + tail;
    lemma_two_to_values();
    lemma_be_bits_len(first as int, 8);
    lemma_be_bits_len(second as int, 8);
    lemma_value_of_bits(first as int, 8);
    lemma_value_of_bits(second as int, 8);
    assert(bits.subrange(1, 9) =~= be_bits(first as int, 8));
    assert(bits.subrange(9, 17) =~= be_bits(second as int, 8));
    assert(bits.skip(17) =~= tail);
}

/// A match that heads a bit string is read back as it was written.
pub proof fn lemma_match_fields(offset: u16, length: u16, tail: Seq<bool>)
    requires
        offset < 512,
        3 <= length <= 130,
    ensures
        ({
            let bits = token_bits(Token::Match { offset, length }) + tail;
            &&& bits.len() >= 17
            &&& !bits[0]
            &&& bits_value(bits.subrange(1, 10)) == offset
            &&& bits_value(bits.subrange(10, 17)) + 3 == length
            &&& bits.skip(17) == tail
        }),
{
    let bits = token_bits(Token::Match { offset, length }) + tail;
    lemma_two_to_values();
    lemma_be_bits_len(offset as int, 9);
    lemma_be_bits_len(length as int - 3, 7);
    lemma_value_of_bits(offset as int, 9);
    lemma_value_of_bits(length as int - 3, 7);
    assert(bits.subrange(1, 10) =~= be_bits(offset as int, 9));
    assert(bits.subrange(10, 17) =~= be_bits(length as int - 3, 7));
    assert(bits.skip(17) =~= tail);
}

/// Copying a run that repeats earlier values of a stream extends a prefix
/// of the stream to a longer prefix.
pub proof fn lemma_copy_run_repeats(
    pixels: Seq<u8>,
    position: int,
    source: int,
    length: int,
    copied: int,
)
    requires
        0 <= source,
        0 <= position,
        0 <= copied <= length,
        position + length <= pixels.len(),
        forall|i: int| 0 <= i < length ==> #[trigger] repeats(pixels, position, source, i),
    ensures
        copy_run(pixels.take(position + copied), source + copied, (length - copied) as nat)
            == pixels.take(position + length),
    decreases length - copied,
{
    if copied < length {
        let held = pixels.take(position + copied);
        assert(repeats(pixels, position, source, copied));
        assert(held[source + copied] == pixels[position + copied]);
        assert(held.push(held[source + copied]) =~= pixels.take(position + copied + 1));
        lemma_copy_run_repeats(pixels, position, source, length, copied + 1);
    }
}

/// The decoder undoes the encoder: reading the tokens that the encoder
/// emits from `position` on, with the values before `position` in hand and
/// the length of the stream as the limit, gives the whole stream, whatever
/// bits follow the tokens.
pub proof fn lemma_decode_encode(pixels: Seq<u8>, position: int, rest: Seq<bool>)
    requires
        0 <= position <= pixels.len(),
    ensures
        decode_tokens(
            tokens_bits(encode_from(pixels, position)) + rest,
            pixels.take(position),
            encode_from(pixels, position).len(),
            pixels.len() as int,
        ) == Ok::<Seq<u8>, SpriteError>(pixels),
    decreases pixels.len() - position,
{
    let len = pixels.len() as int;
    let tokens = encode_from(pixels, position);
    let bits = tokens_bits(tokens) + rest;
    let held = pixels.take(position);
    if position == len {
        assert(held =~= pixels);
    } else {
        let token = token_at(pixels, position);
        let next = next_position(pixels, position);
        let later = encode_from(pixels, next);
        let tail = tokens_bits(later) + rest;
        lemma_next_position(pixels, position);
        lemma_tokens_bits_cons(token, later);
        assert(tokens.len() == later.len() + 1);
        assert(bits =~= token_bits(token) + tail);
        lemma_decode_encode(pixels, next, rest);
        if takes_match(pixels, position) {
            let found = best_match(pixels, position);
            lemma_best_is_earliest_longest(pixels, position, 510);
            let source = window_origin(position) + found.0;
            lemma_run_matches(pixels, position, source, match_limit(pixels, position), 0);
            assert(repeats(pixels, position, source, 0));
            lemma_match_fields(found.0 as u16, found.1 as u16, tail);
            lemma_copy_run_repeats(pixels, position, source, found.1, 0);
            assert(copy_run(held, source, found.1 as nat) == pixels.take(next));
        } else {
            let first = pixels[position];
            let second = if position + 1 < len {
                pixels[position + 1]
            } else {
                0u8
            };
            lemma_literal_fields(first, second, tail);
            let one = push_within(held, first, len);
            assert(one =~= pixels.take(position + 1));
            let two = push_within(one, second, len);
            assert(two =~= pixels.take(next));
        }
    }
}

/// Exchanging the bytes of each word twice changes nothing.
pub proof fn lemma_swap_words_twice(bytes: Seq<u8>)
    requires
        bytes.len() % 2 == 0,
    ensures
        swap_words(swap_words(bytes)) == bytes,
        swap_words(bytes).len() == bytes.len(),
{
    assert(swap_words(swap_words(bytes)) =~= bytes);
}

/// A token count is read back from its four bytes.
pub proof fn lemma_count_round_trip(count: u32)
    ensures
        count_bytes(count).len() == 4,
        count_value(count_bytes(count)) == count,
{
}

/// The bits of a payload are the bits of its tokens, followed by the zero
/// bits of the alignment and the one bits of the padding.
pub proof fn lemma_payload_bits(tokens: Seq<Token>)
    ensures
        exists|rest: Seq<bool>| bytes_bits(payload_bytes(tokens)) == tokens_bits(tokens) + rest,
{
    let bits = tokens_bits(tokens);
    let body = bits_bytes(aligned(bits));
    let fill = padding(pad_len(body.len() as int));
    lemma_aligned_len(bits);
    lemma_bits_of_bytes(aligned(bits));
    lemma_bytes_bits_concat(body, fill);
    let rest = crate::bitstream::zero_bits(crate::bitstream::align_gap(bits.len()))
        + bytes_bits(fill);
    assert(bytes_bits(payload_bytes(tokens)) =~= bits + rest);
}

/// Reading a payload gives back the stream it was made from.
pub proof fn lemma_payload_decodes(units: Seq<u8>)
    ensures
        decode_tokens(
            bytes_bits(payload_bytes(encode(units))),
            Seq::empty(),
            encode(units).len(),
            units.len() as int,
        ) == Ok::<Seq<u8>, SpriteError>(units),
{
    let tokens = encode(units);
    lemma_payload_bits(tokens);
    let rest = choose|rest: Seq<bool>|
        bytes_bits(payload_bytes(tokens)) == tokens_bits(tokens) + rest;
    lemma_decode_encode(units, 0, rest);
    assert(units.take(0) =~= Seq::<u8>::empty());
}

/// The pixels of a well-formed image are read back from its stream
/// values.
pub proof fn lemma_units_round_trip(image: SpriteView)
    requires
        image.wf(),
    ensures
        stream_units(image).len() == unit_count(image.pixel_count(), image.bit_depth),
        units_pixels(stream_units(image), image.bit_depth, image.pixel_count()) == image.pixels,
{
    lemma_two_to_values();
    if image.bit_depth == 4 {
        assert(all_nibbles(image.pixels));
        lemma_unpack_pack(image.pixels, false);
        let back = unpack4to8(pack8to4(image.pixels, false), false);
        assert(back.take(image.pixels.len() as int) == image.pixels);
        assert(units_pixels(stream_units(image), image.bit_depth, image.pixel_count())
            =~= back.take(image.pixels.len() as int));
    } else {
        assert(units_pixels(stream_units(image), image.bit_depth, image.pixel_count())
            =~= image.pixels);
    }
}

/// A file built from a well-formed image opens with its header, followed
/// by its palette and its payload.
proof fn lemma_bin_file_parts(image: SpriteView, compressed: bool)
    requires
        image.wf(),
    ensures
        ({
            let file = bin_file(image, compressed);
            let start = 16 + image.palette.len() as int;
            &&& file.len() == start + bin_payload(image, compressed).len()
            &&& parse_header(file) == header_for(image, compressed)
            &&& file.subrange(16, start) == image.palette
            &&& file.skip(start) == bin_payload(image, compressed)
            &&& embedded_palette_len(header_for(image, compressed)) == image.palette.len()
        }),
{
    let header = header_for(image, compressed);
    let head = header_bytes(header);
    let payload = bin_payload(image, compressed);
    let file = bin_file(image, compressed);
    let start = 16 + image.palette.len() as int;
    lemma_header_round_trip(header);
    assert(file =~= head + image.palette + payload);
    assert(file.subrange(0, 16) =~= head);
    assert(parse_header(file) == parse_header(head));
    assert(file.subrange(16, start) =~= image.palette);
    assert(file.skip(start) =~= payload);
}

/// The token count of a well-formed image fits the four bytes it is
/// stored in.
proof fn lemma_count_fits(image: SpriteView)
    requires
        image.wf(),
    ensures
        stored_count(encode(stream_units(image)).len() as int) == encode(
            stream_units(image),
        ).len(),
{
    let units = stream_units(image);
    lemma_units_round_trip(image);
    lemma_encode_len(units, 0);
    assert(image.pixel_count() <= 0xFFFF * 0xFFFF) by (nonlinear_arith)
        requires
            image.pixel_count() == image.width as int * image.height as int,
            image.width <= 0xFFFF,
            image.height <= 0xFFFF,
    ;
}

/// A file that is laid out as a compressed file decodes to what its token
/// stream decodes to.
proof fn lemma_decompressed_parts(
    file: Seq<u8>,
    header: crate::bin_header::BinHeader,
    count: u32,
    stream: Seq<u8>,
    units: Seq<u8>,
)
    requires
        crate::shared_types::depth_supported(header.bit_depth),
        stream.len() % 2 == 0,
        file.len() == 16 + embedded_palette_len(header) + 4 + stream.len(),
        file.skip(16 + embedded_palette_len(header)) == count_bytes(count) + swap_words(stream),
        decode_tokens(
            bytes_bits(stream),
            Seq::empty(),
            count as nat,
            unit_count(header.width as int * header.height as int, header.bit_depth),
        ) == Ok::<Seq<u8>, SpriteError>(units),
    ensures
        decompressed(file, header) == Ok::<SpriteView, SpriteError>(
            SpriteView {
                width: header.width,
                height: header.height,
                bit_depth: header.bit_depth,
                pixels: units_pixels(
                    units,
                    header.bit_depth,
                    header.width as int * header.height as int,
                ),
                palette: file.subrange(16, 16 + embedded_palette_len(header)),
            },
        ),
{
    let start = 16 + embedded_palette_len(header);
    lemma_two_to_values();
    lemma_swap_words_twice(stream);
    lemma_count_round_trip(count);
    assert(file.subrange(start, start + 4) =~= count_bytes(count)) by {
        assert(file.subrange(start, start + 4) =~= file.skip(start).take(4));
        assert((count_bytes(count) + swap_words(stream)).take(4) =~= count_bytes(count));
    }
    assert(file.skip(start + 4) =~= swap_words(stream)) by {
        assert(file.skip(start + 4) =~= file.skip(start).skip(4));
        assert((count_bytes(count) + swap_words(stream)).skip(4) =~= swap_words(stream));
    }
}

/// A compressed file built from a well-formed image, given to the decoder
/// with its header, decodes to that image.
pub proof fn lemma_compressed_round_trip(image: SpriteView)
    requires
        image.wf(),
    ensures
        decompressed(bin_file(image, true), header_for(image, true)) == Ok::<
            SpriteView,
            SpriteError,
        >(image),
{
    let header = header_for(image, true);
    let file = bin_file(image, true);
    let units = stream_units(image);
    let tokens = encode(units);
    let stream = payload_bytes(tokens);
    let count = stored_count(tokens.len() as int);
    lemma_bin_file_parts(image, true);
    lemma_units_round_trip(image);
    lemma_payload_padding(tokens);
    lemma_count_fits(image);
    lemma_swap_words_twice(stream);
    lemma_payload_decodes(units);
    lemma_decompressed_parts(file, header, count, stream, units);
}

/// An uncompressed file built from a well-formed image holds it.
pub proof fn lemma_stored_round_trip(image: SpriteView)
    requires
        image.wf(),
    ensures
        stored(bin_file(image, false), header_for(image, false)) == Ok::<SpriteView, SpriteError>(
            image,
        ),
{
    let file = bin_file(image, false);
    let units = stream_units(image);
    let start = 16 + image.palette.len() as int;
    lemma_bin_file_parts(image, false);
    lemma_units_round_trip(image);
    assert(file.subrange(start, start + units.len()) =~= units) by {
        assert(file.subrange(start, start + units.len()) =~= file.skip(start).take(
            units.len() as int,
        ));
    }
}

/// The round trip of the native format: the file built from a well-formed
/// image, compressed or not, holds exactly that image: its dimensions, its
/// bit depth, its pixels and its palette.
pub proof fn lemma_bin_round_trip(image: SpriteView, compressed: bool)
    requires
        image.wf(),
    ensures
        loaded(bin_file(image, compressed)) == Ok::<SpriteView, SpriteError>(image),
{
    lemma_bin_file_parts(image, compressed);
    if compressed {
        lemma_compressed_round_trip(image);
    } else {
        lemma_stored_round_trip(image);
    }
}

/// The round trip at 4 bits, from packed bytes: bytes that are unpacked
/// into an image, written to a file and read back, pack again to the same
/// bytes, whichever nibble order is used for packing and unpacking.
pub proof fn lemma_packed_round_trip(
    packed: Seq<u8>,
    high_first: bool,
    width: u16,
    height: u16,
    compressed: bool,
)
    requires
        2 * packed.len() == width as int * height as int,
    ensures
        ({
            let image = SpriteView {
                width,
                height,
                bit_depth: 4,
                pixels: unpack4to8(packed, high_first),
                palette: Seq::empty(),
            };
            &&& loaded(bin_file(image, compressed)) is Ok
            &&& pack8to4(loaded(bin_file(image, compressed))->Ok_0.pixels, high_first) == packed
        }),
{
    let image = SpriteView {
        width,
        height,
        bit_depth: 4,
        pixels: unpack4to8(packed, high_first),
        palette: Seq::empty(),
    };
    lemma_two_to_values();
    crate::bit_depth::lemma_unpack_shape(packed, high_first);
    crate::bit_depth::lemma_pack_unpack(packed, high_first);
    assert(image.wf());
    lemma_bin_round_trip(image, compressed);
}

/// A compressed file built from a well-formed image fills a whole number
/// of 16-byte blocks.
pub proof fn lemma_bin_file_blocks(image: SpriteView)
    requires
        image.wf(),
    ensures
        bin_file(image, true).len() % 16 == 0,
{
    let tokens = encode(stream_units(image));
    lemma_bin_file_parts(image, true);
    lemma_payload_padding(tokens);
    lemma_swap_words_twice(payload_bytes(tokens));
    lemma_two_to_values();
}

/// Whatever is read out of a file is a well-formed image: it has exactly
/// as many pixels as its dimensions call for, each within its bit depth,
/// and its palette is absent or complete.
pub proof fn lemma_loaded_wf(file: Seq<u8>)
    ensures
        loaded(file) matches Ok(image) ==> image.wf(),
{
    if file.len() >= 16 {
        let header = parse_header(file);
        let got = if header.compressed {
            decompressed(file, header)
        } else {
            stored(file, header)
        };
        lemma_two_to_values();
        if let Ok(image) = got {
            assert(image.palette.len() == embedded_palette_len(header));
            assert(image.pixels.len() == image.pixel_count()) by {
                assert(0 <= header.width as int * header.height as int) by (nonlinear_arith)
                    requires
                        0 <= header.width,
                        0 <= header.height,
                ;
            }
            assert forall|i: int| 0 <= i < image.pixels.len() implies (
            #[trigger] image.pixels[i] as int) < two_to(image.bit_depth as nat) by {}
        }
    }
}

} // verus!
