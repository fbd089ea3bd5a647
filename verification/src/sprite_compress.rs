//! The token stream: how a pixel stream is cut into literal and match
//! tokens, how the tokens are laid down as bits, and how they are read
//! back.

use vstd::prelude::*;
use crate::bin_header::{BinHeader, CLUT_EMBEDDED};
use crate::buffer::slice_of;
use crate::bit_depth::{bpp_4to8, bpp_8to4, pack8to4, unpack4to8};
use crate::bitstream::{
    aligned, be_bits, bits_bytes, bits_value, byte_align, bytes_bits, lemma_aligned_len,
    lemma_be_bits_len, lemma_bits_of_value, lemma_two_to_values, read_bit, read_bits,
    reader_bits, reader_new, write_bit, write_bits, writer_bits, writer_bytes, writer_new,
    BitSink, BitSource,
};
use crate::shared_types::{
    CompressedData, SpriteData, SpriteError, SpriteView, depth_supported, palette_len,
};
use crate::window::{
    best_match, best_upto, find_match, lemma_best_is_earliest_longest, window_origin,
};

verus! {

/// One unit of the compressed stream.
#[derive(Clone, Copy, Debug, PartialEq, Eq, Structural)]
pub enum Token {
    /// Two raw values. Where the stream ends after `first`, `second` is
    /// zero.
    Literal { first: u8, second: u8 },
    /// A run of `length` values, 3 to 130, that repeats the values
    /// `offset` places after the window origin.
    Match { offset: u16, length: u16 },
}

/// Whether the encoder emits a match at `position`: not within the first
/// four values, not within the last two, and only for a run longer than
/// two.
pub open spec fn takes_match(pixels: Seq<u8>, position: int) -> bool {
    position >= 4 && pixels.len() - position > 2 && best_match(pixels, position).1 > 2
}

/// Where the scan stands after the token at `position`: a match moves on
/// by its length, a literal by two, and neither past the end.
pub open spec fn next_position(pixels: Seq<u8>, position: int) -> int {
    let step = if takes_match(pixels, position) {
        best_match(pixels, position).1
    } else {
        2
    };
    if position + step > pixels.len() {
        pixels.len() as int
    } else {
        position + step
    }
}

/// The token that the encoder emits at `position`: a match where one is
/// taken, else a literal with the next two values, the second of them zero
/// where the stream ends after the first.
pub open spec fn token_at(pixels: Seq<u8>, position: int) -> Token {
    if takes_match(pixels, position) {
        let found = best_match(pixels, position);
        Token::Match { offset: found.0 as u16, length: found.1 as u16 }
    } else {
        Token::Literal {
            first: pixels[position],
            second: if position + 1 < pixels.len() {
                pixels[position + 1]
            } else {
                0u8
            },
        }
    }
}

/// The tokens that the encoder emits from `position` to the end of the
/// stream.
pub open spec fn encode_from(pixels: Seq<u8>, position: int) -> Seq<Token>
    decreases pixels.len() - position,
{
    if position < 0 || position >= pixels.len() {
        Seq::empty()
    } else {
        seq![token_at(pixels, position)] + encode_from(pixels, next_position(pixels, position))
    }
}

/// The tokens of a whole stream.
pub open spec fn encode(pixels: Seq<u8>) -> Seq<Token> {
    encode_from(pixels, 0)
}

/// The 17 bits of a token. A literal is a one bit and two values of 8
/// bits; a match is a zero bit, the offset in 9 bits and the length less
/// three in 7 bits.
pub open spec fn token_bits(token: Token) -> Seq<bool> {
    match token {
        Token::Literal { first, second } => seq![true] + be_bits(first as int, 8) + be_bits(
            second as int,
            8,
        ),
        Token::Match { offset, length } => seq![false] + be_bits(offset as int, 9) + be_bits(
            length as int - 3,
            7,
        ),
    }
}

/// The bits of a sequence of tokens, one token after the other.
pub open spec fn tokens_bits(tokens: Seq<Token>) -> Seq<bool>
    decreases tokens.len(),
{
    if tokens.len() == 0 {
        Seq::empty()
    } else {
        token_bits(tokens.first()) + tokens_bits(tokens.drop_first())
    }
}

/// The number of `0xFF` bytes that follow a token stream of `len` bytes.
/// The stream will stand 20 bytes into its file, and the padding brings
/// the file to a multiple of 16 bytes; it is never empty.
pub open spec fn pad_len(len: int) -> int {
    16 - (len + 20) % 16
}

/// `count` bytes of `0xFF`.
pub open spec fn padding(count: int) -> Seq<u8> {
    Seq::new(count as nat, |i: int| 0xFFu8)
}

/// The bytes that stand for `tokens`: their bits, zero bits up to a whole
/// byte, and the padding.
pub open spec fn payload_bytes(tokens: Seq<Token>) -> Seq<u8> {
    let body = bits_bytes(aligned(tokens_bits(tokens)));
    body + padding(pad_len(body.len() as int))
}

/// The values that the encoder works on: the pixels themselves at 8 bits,
/// and at 4 bits the pixels packed two to a byte, the first of each pair
/// in the low nibble.
pub open spec fn stream_units(image: SpriteView) -> Seq<u8> {
    if image.bit_depth == 4 {
        pack8to4(image.pixels, false)
    } else {
        image.pixels
    }
}

/// A token takes 17 bits.
pub proof fn lemma_token_bits_len(token: Token)
    ensures
        token_bits(token).len() == 17,
{
    match token {
        Token::Literal { first, second } => {
            lemma_be_bits_len(first as int, 8);
            lemma_be_bits_len(second as int, 8);
        },
        Token::Match { offset, length } => {
            lemma_be_bits_len(offset as int, 9);
            lemma_be_bits_len(length as int - 3, 7);
        },
    }
}

/// The bits of a token followed by more tokens are its bits followed by
/// theirs.
pub proof fn lemma_tokens_bits_cons(token: Token, rest: Seq<Token>)
    ensures
        tokens_bits(seq![token] + rest) == token_bits(token) + tokens_bits(rest),
{
    let all = seq![token] + rest;
    assert(all.first() == token);
    assert(all.drop_first() =~= rest);
}

/// A sequence of tokens takes 17 bits for each.
pub proof fn lemma_tokens_bits_len(tokens: Seq<Token>)
    ensures
        tokens_bits(tokens).len() == 17 * tokens.len(),
    decreases tokens.len(),
{
    if tokens.len() > 0 {
        lemma_token_bits_len(tokens.first());
        lemma_tokens_bits_len(tokens.drop_first());
    }
}

/// The padding law: a payload is between 1 and 16 bytes longer than its
/// tokens need, all of those bytes are `0xFF`, and with the 20 bytes that
/// precede it in a file it fills a whole number of 16-byte blocks.
pub proof fn lemma_payload_padding(tokens: Seq<Token>)
    ensures
        ({
            let body = bits_bytes(aligned(tokens_bits(tokens)));
            let payload = payload_bytes(tokens);
            &&& (payload.len() + 20) % 16 == 0
            &&& body.len() + 1 <= payload.len() <= body.len() + 16
            &&& body.len() == (17 * tokens.len() + 7) / 8
            &&& payload.take(body.len() as int) == body
            &&& forall|i: int| body.len() <= i < payload.len() ==> #[trigger] payload[i] == 0xFF
        }),
{
    let bits = tokens_bits(tokens);
    let body = bits_bytes(aligned(bits));
    let fill = padding(pad_len(body.len() as int));
    let payload = payload_bytes(tokens);
    lemma_tokens_bits_len(tokens);
    lemma_aligned_len(bits);
    let whole = aligned(bits).len() as int;
    assert(body.len() == whole / 8);
    assert(whole % 8 == 0 && 17 * tokens.len() <= whole < 17 * tokens.len() + 8);
    assert(whole / 8 == (17 * tokens.len() + 7) / 8);
    assert(1 <= pad_len(body.len() as int) <= 16);
    assert(fill.len() == pad_len(body.len() as int));
    assert(payload == body + fill);
    assert(payload.len() == body.len() + fill.len());
    assert(payload.take(body.len() as int) =~= body);
    assert forall|i: int| body.len() <= i < payload.len() implies #[trigger] payload[i]
        == 0xFF by {
        assert(payload[i] == fill[i - body.len()]);
    }
}

/// A literal at the last value of a stream carries a zero in place of the
/// value that is missing, and ends the stream.
pub proof fn lemma_last_literal(pixels: Seq<u8>)
    requires
        pixels.len() >= 1,
    ensures
        encode_from(pixels, pixels.len() - 1) == seq![
            Token::Literal { first: pixels[pixels.len() - 1], second: 0u8 },
        ],
{
    let last = pixels.len() - 1;
    assert(encode_from(pixels, last + 1) =~= Seq::<Token>::empty());
    assert(encode_from(pixels, last) =~= seq![
        Token::Literal { first: pixels[last], second: 0u8 },
    ]);
}

/// Whether no two values of a stream are equal.
pub open spec fn all_distinct(pixels: Seq<u8>) -> bool {
    forall|i: int, j: int| 0 <= i < j < pixels.len() ==> pixels[i] != pixels[j]
}

/// Whether a token is a literal.
pub open spec fn is_literal(token: Token) -> bool {
    token is Literal
}

/// In a stream without repeated values nothing matches.
pub proof fn lemma_distinct_no_match(pixels: Seq<u8>, position: int, tried: nat)
    requires
        all_distinct(pixels),
        0 <= position < pixels.len(),
    ensures
        best_upto(pixels, position, tried) == (0int, 0int),
    decreases tried,
{
    if tried > 0 {
        lemma_distinct_no_match(pixels, position, (tried - 1) as nat);
        let source = window_origin(position) + tried - 1;
        if source < position {
            assert(pixels[source] != pixels[position]);
        }
    }
}

/// A stream without repeated values is encoded in literals alone, one for
/// every two values.
pub proof fn lemma_distinct_literals(pixels: Seq<u8>, position: int)
    requires
        all_distinct(pixels),
        0 <= position <= pixels.len(),
    ensures
        encode_from(pixels, position).len() == (pixels.len() - position + 1) / 2,
        forall|k: int|
            0 <= k < encode_from(pixels, position).len() ==> is_literal(
                #[trigger] encode_from(pixels, position)[k],
            ),
    decreases pixels.len() - position,
{
    if position < pixels.len() {
        lemma_distinct_no_match(pixels, position, 510);
        let next = next_position(pixels, position);
        lemma_distinct_literals(pixels, next);
        let later = encode_from(pixels, next);
        let tokens = encode_from(pixels, position);
        assert(tokens == seq![token_at(pixels, position)] + later);
        assert forall|k: int| 0 <= k < tokens.len() implies is_literal(#[trigger] tokens[k]) by {
            if k > 0 {
                assert(tokens[k] == later[k - 1]);
            }
        }
    }
}

/// Writes a literal token.
fn write_literal(writer: &mut BitSink, first: u8, second: u8)
    ensures
        writer_bits(*final(writer)) == writer_bits(*old(writer)) + token_bits(
            Token::Literal { first, second },
        ),
{
    let ghost before = writer_bits(*writer);
    proof {
        lemma_two_to_values();
    }
    write_bit(writer, true);
    write_bits(writer, 8, first as u16);
    write_bits(writer, 8, second as u16);
    assert(writer_bits(*writer) =~= before + token_bits(Token::Literal { first, second }));
}

/// Writes a match token.
fn write_match(writer: &mut BitSink, offset: u16, length: u16)
    requires
        offset < 512,
        3 <= length <= 130,
    ensures
        writer_bits(*final(writer)) == writer_bits(*old(writer)) + token_bits(
            Token::Match { offset, length },
        ),
{
    let ghost before = writer_bits(*writer);
    proof {
        lemma_two_to_values();
    }
    write_bit(writer, false);
    write_bits(writer, 9, offset);
    write_bits(writer, 7, length - 3);
    assert(writer_bits(*writer) =~= before + token_bits(Token::Match { offset, length }));
}

/// Closes a token stream: fills the last byte with zero bits and appends
/// the padding.
fn finish(writer: BitSink, Ghost(tokens): Ghost<Seq<Token>>) -> (stream: Vec<u8>)
    requires
        writer_bits(writer) == tokens_bits(tokens),
    ensures
        stream@ == payload_bytes(tokens),
        (stream.len() + 20) % 16 == 0,
{
    let mut writer = writer;
    byte_align(&mut writer);
    let mut stream = writer_bytes(writer);
    let ghost body = stream@;
    let fill: usize = 16 - (stream.len() % 16 + 4) % 16;
    let mut added: usize = 0;
    while added < fill
        invariant
            added <= fill,
            fill as int == pad_len(body.len() as int),
            stream@ == body + padding(added as int),
        decreases fill - added,
    {
        stream.push(255);
        added += 1;
        assert(stream@ =~= body + padding(added as int));
    }
    stream
}

/// One more token written keeps the bits written and the bits still to be
/// written in step.
proof fn lemma_token_written(
    before: Seq<bool>,
    token: Token,
    later: Seq<Token>,
    all: Seq<bool>,
)
    requires
        before + tokens_bits(seq![token] + later) == all,
    ensures
        (before + token_bits(token)) + tokens_bits(later) == all,
{
    lemma_tokens_bits_cons(token, later);
    assert((before + token_bits(token)) + tokens_bits(later) =~= before + (token_bits(token)
        + tokens_bits(later)));
}

/// Cuts a stream of values into tokens and lays them down as bytes.
///
/// The stream is scanned from left to right. Where a run longer than two
/// values repeats earlier values (see `find_match`), a match is emitted and
/// the scan moves on by the length of the run; otherwise a literal with
/// the next two values is emitted. The bits of the tokens are written most
/// significant first, filled with zero bits to a whole byte, and followed
/// by 1 to 16 bytes of `0xFF`.
pub fn compress_stream(pixels: &Vec<u8>) -> (packed: CompressedData)
    ensures
        packed.iterations == encode(pixels@).len(),
        packed.stream@ == payload_bytes(encode(pixels@)),
        (packed.stream.len() + 20) % 16 == 0,
{
    let len = pixels.len();
    let ghost all = encode(pixels@);
    let mut writer = writer_new();
    let mut position: usize = 0;
    let mut iterations: usize = 0;
    proof {
        assert(writer_bits(writer) + tokens_bits(all) =~= tokens_bits(all));
    }
    while position < len
        invariant
            len == pixels.len(),
            position <= len,
            iterations <= position,
            all == encode(pixels@),
            writer_bits(writer) + tokens_bits(encode_from(pixels@, position as int))
                == tokens_bits(all),
            iterations + encode_from(pixels@, position as int).len() == all.len(),
        decreases len - position,
    {
        let ghost later = encode_from(pixels@, next_position(pixels@, position as int));
        proof {
            lemma_best_is_earliest_longest(pixels@, position as int, 510);
            lemma_token_written(
                writer_bits(writer),
                token_at(pixels@, position as int),
                later,
                tokens_bits(all),
            );
        }
        let mut matched = false;
        if position >= 4 && len - position > 2 {
            let found = find_match(pixels, position);
            if found.1 > 2 {
                write_match(&mut writer, found.0 as u16, found.1 as u16);
                position += found.1;
                matched = true;
            }
        }
        if !matched {
            let first = pixels[position];
            let second = if len - position > 1 {
                pixels[position + 1]
            } else {
                0u8
            };
            write_literal(&mut writer, first, second);
            position = if len - position < 2 {
                len
            } else {
                position + 2
            };
        }
        iterations += 1;
    }
    proof {
        assert(encode_from(pixels@, position as int) =~= Seq::<Token>::empty());
        assert(writer_bits(writer) =~= tokens_bits(all));
    }
    let stream = finish(writer, Ghost(all));
    CompressedData { iterations, stream }
}

/// Compresses the pixels of an image.
///
/// At 8 bits the pixels are the stream. At 4 bits they are first packed
/// two to a byte, the first of each pair in the low nibble and each
/// clamped to four bits. Any other bit depth is refused.
pub fn compress(data: SpriteData) -> (result: Result<CompressedData, SpriteError>)
    ensures
        match result {
            Ok(packed) => {
                &&& depth_supported(data.bit_depth)
                &&& packed.iterations == encode(stream_units(data@)).len()
                &&& packed.stream@ == payload_bytes(encode(stream_units(data@)))
                &&& (packed.stream.len() + 20) % 16 == 0
            },
            Err(error) => !depth_supported(data.bit_depth) && error == SpriteError::InvalidBitDepth,
        },
{
    if data.bit_depth == 4 {
        let units = bpp_4to8(data.pixels, true);
        Ok(compress_stream(&units))
    } else if data.bit_depth == 8 {
        Ok(compress_stream(&data.pixels))
    } else {
        Err(SpriteError::InvalidBitDepth)
    }
}

/// `out` with `value` appended, unless `out` already holds `limit` values.
pub open spec fn push_within(out: Seq<u8>, value: u8, limit: int) -> Seq<u8> {
    if out.len() < limit {
        out.push(value)
    } else {
        out
    }
}

/// `out` with `count` values appended one at a time, each a copy of the
/// value `source` places from the start and onwards. A copy may read what
/// an earlier copy of the same run appended.
pub open spec fn copy_run(out: Seq<u8>, source: int, count: nat) -> Seq<u8>
    decreases count,
{
    if count == 0 {
        out
    } else {
        copy_run(out.push(out[source]), source + 1, (count - 1) as nat)
    }
}

/// What reading `count` tokens from `bits` adds to `out`.
///
/// Each token is 17 bits. A literal appends its two values, each only
/// while fewer than `limit` values are held. A match appends a run copied
/// from the values already held, starting `offset` places after the window
/// origin. The stream is truncated where fewer than 17 bits are left for a
/// token, and a match is invalid where it starts at or after the end of
/// what is held.
pub open spec fn decode_tokens(bits: Seq<bool>, out: Seq<u8>, count: nat, limit: int) -> Result<
    Seq<u8>,
    SpriteError,
>
    decreases count,
{
    if count == 0 {
        Ok(out)
    } else if bits.len() < 17 {
        Err(SpriteError::TruncatedBitstream)
    } else if bits[0] {
        let first = bits_value(bits.subrange(1, 9)) as u8;
        let second = bits_value(bits.subrange(9, 17)) as u8;
        decode_tokens(
            bits.skip(17),
            push_within(push_within(out, first, limit), second, limit),
            (count - 1) as nat,
            limit,
        )
    } else {
        let offset = bits_value(bits.subrange(1, 10));
        let length = bits_value(bits.subrange(10, 17)) + 3;
        let source = window_origin(out.len() as int) + offset;
        if source >= out.len() {
            Err(SpriteError::InvalidReference)
        } else {
            decode_tokens(
                bits.skip(17),
                copy_run(out, source, length as nat),
                (count - 1) as nat,
                limit,
            )
        }
    }
}

/// The number of stream values that `pixel_count` pixels take: one per
/// pixel at 8 bits, one per two pixels at 4 bits.
pub open spec fn unit_count(pixel_count: int, bit_depth: u16) -> int {
    if bit_depth == 4 {
        (pixel_count + 1) / 2
    } else {
        pixel_count
    }
}

/// A byte string with the two bytes of each 16-bit word exchanged.
pub open spec fn swap_words(bytes: Seq<u8>) -> Seq<u8>
    recommends
        bytes.len() % 2 == 0,
{
    Seq::new(
        bytes.len(),
        |i: int|
            if i % 2 == 0 {
                bytes[i + 1]
            } else {
                bytes[i - 1]
            },
    )
}

/// The four bytes that hold a token count in a file: the count as two
/// 16-bit halves, the high half first, each half low byte first.
pub open spec fn count_bytes(count: u32) -> Seq<u8> {
    seq![
        (count as int / 0x1_0000 % 256) as u8,
        (count as int / 0x100_0000) as u8,
        (count as int % 256) as u8,
        (count as int / 0x100 % 256) as u8,
    ]
}

/// The token count that four bytes of a file hold.
pub open spec fn count_value(bytes: Seq<u8>) -> u32
    recommends
        bytes.len() == 4,
{
    (bytes[2] as int + 0x100 * bytes[3] as int + 0x1_0000 * bytes[0] as int + 0x100_0000
        * bytes[1] as int) as u32
}

/// `values` cut or filled with zeros to exactly `len` entries.
pub open spec fn fitted(values: Seq<u8>, len: int) -> Seq<u8> {
    Seq::new(
        len as nat,
        |i: int|
            if i < values.len() {
                values[i]
            } else {
                0u8
            },
    )
}

/// The pixels that decoded stream values stand for: at 4 bits each value
/// holds two pixels, the first in the low nibble; the result has exactly
/// `pixel_count` entries.
pub open spec fn units_pixels(units: Seq<u8>, bit_depth: u16, pixel_count: int) -> Seq<u8> {
    fitted(
        if bit_depth == 4 {
            unpack4to8(units, false)
        } else {
            units
        },
        pixel_count,
    )
}

/// The number of palette bytes that follow the header: a whole palette if
/// the header announces one, else none.
pub open spec fn embedded_palette_len(header: BinHeader) -> int {
    if header.clut == CLUT_EMBEDDED {
        palette_len(header.bit_depth)
    } else {
        0
    }
}

/// The image that a compressed file holds, or why it holds none.
///
/// After the 16 bytes of the header come the palette, if the header
/// announces one, the token count in four bytes, and the token stream with
/// the bytes of each 16-bit word exchanged. The file is malformed where it
/// ends before the token count does, or in the middle of a word.
pub open spec fn decompressed(file: Seq<u8>, header: BinHeader) -> Result<SpriteView, SpriteError> {
    let start = 16 + embedded_palette_len(header);
    let pixel_count = header.width as int * header.height as int;
    if !depth_supported(header.bit_depth) {
        Err(SpriteError::InvalidBitDepth)
    } else if file.len() < start + 4 || (file.len() - start) % 2 != 0 {
        Err(SpriteError::MalformedHeader)
    } else {
        match decode_tokens(
            bytes_bits(swap_words(file.skip(start + 4))),
            Seq::empty(),
            count_value(file.subrange(start, start + 4)) as nat,
            unit_count(pixel_count, header.bit_depth),
        ) {
            Err(error) => Err(error),
            Ok(units) => Ok(
                SpriteView {
                    width: header.width,
                    height: header.height,
                    bit_depth: header.bit_depth,
                    pixels: units_pixels(units, header.bit_depth, pixel_count),
                    palette: file.subrange(16, start),
                },
            ),
        }
    }
}

/// Whether a decoding ended as `expected` says: with that image, or with
/// that error.
pub open spec fn decoded_as(
    result: Result<SpriteData, SpriteError>,
    expected: Result<SpriteView, SpriteError>,
) -> bool {
    match result {
        Ok(image) => expected == Ok::<SpriteView, SpriteError>(image@),
        Err(error) => expected == Err::<SpriteView, SpriteError>(error),
    }
}

/// Reads one token and appends what it stands for to `out`.
fn read_token(reader: &mut BitSource, out: &mut Vec<u8>, limit: usize, Ghost(rest): Ghost<nat>) -> (done:
    Result<(), SpriteError>)
    ensures
        match done {
            Ok(()) => decode_tokens(reader_bits(*old(reader)), old(out)@, rest + 1, limit as int)
                == decode_tokens(reader_bits(*final(reader)), final(out)@, rest, limit as int),
            Err(error) => decode_tokens(
                reader_bits(*old(reader)),
                old(out)@,
                rest + 1,
                limit as int,
            ) == Err::<Seq<u8>, SpriteError>(error),
        },
{
    let ghost bits = reader_bits(*reader);
    let ghost held = out@;
    proof {
        lemma_two_to_values();
    }
    let flag = match read_bit(reader) {
        Some(flag) => flag,
        None => { return Err(SpriteError::TruncatedBitstream); },
    };
    if flag {
        let first = match read_bits(reader, 8) {
            Some(value) => value,
            None => { return Err(SpriteError::TruncatedBitstream); },
        };
        let second = match read_bits(reader, 8) {
            Some(value) => value,
            None => { return Err(SpriteError::TruncatedBitstream); },
        };
        proof {
            assert(bits.skip(1).take(8) =~= bits.subrange(1, 9));
            assert(bits.skip(1).skip(8).take(8) =~= bits.subrange(9, 17));
            assert(bits.skip(1).skip(8).skip(8) =~= bits.skip(17));
            lemma_bits_of_value(bits.subrange(1, 9));
            lemma_bits_of_value(bits.subrange(9, 17));
        }
        if out.len() < limit {
            out.push(first as u8);
        }
        if out.len() < limit {
            out.push(second as u8);
        }
        Ok(())
    } else {
        let offset = match read_bits(reader, 9) {
            Some(value) => value,
            None => { return Err(SpriteError::TruncatedBitstream); },
        };
        let stored = match read_bits(reader, 7) {
            Some(value) => value,
            None => { return Err(SpriteError::TruncatedBitstream); },
        };
        proof {
            assert(bits.skip(1).take(9) =~= bits.subrange(1, 10));
            assert(bits.skip(1).skip(9).take(7) =~= bits.subrange(10, 17));
            assert(bits.skip(1).skip(9).skip(7) =~= bits.skip(17));
            lemma_bits_of_value(bits.subrange(1, 10));
            lemma_bits_of_value(bits.subrange(10, 17));
        }
        let origin: usize = if out.len() > 512 {
            out.len() - 512
        } else {
            0
        };
        let source: usize = origin + offset as usize;
        if source >= out.len() {
            return Err(SpriteError::InvalidReference);
        }
        let length: usize = stored as usize + 3;
        let mut copied: usize = 0;
        while copied < length
            invariant
                copied <= length,
                source < held.len(),
                out@.len() == held.len() + copied,
                copy_run(held, source as int, length as nat) == copy_run(
                    out@,
                    source + copied,
                    (length - copied) as nat,
                ),
            decreases length - copied,
        {
            let held_now = out.len();
            assert(source + copied < held_now);
            let value = out[source + copied];
            out.push(value);
            copied += 1;
        }
        Ok(())
    }
}

/// Cuts `values` to `len` entries, or fills it with zeros up to `len`.
pub(crate) fn fit(values: &mut Vec<u8>, len: usize)
    ensures
        final(values)@ == fitted(old(values)@, len as int),
{
    let ghost before = values@;
    values.truncate(len);
    assert(values@ =~= fitted(before, values@.len() as int));
    while values.len() < len
        invariant
            values@.len() <= len,
            values@.len() >= before.len() || values@.len() == len,
            values@ == fitted(before, values@.len() as int),
        decreases len - values.len(),
    {
        values.push(0u8);
        assert(values@ =~= fitted(before, values@.len() as int));
    }
    assert(values@ =~= fitted(before, len as int));
}

/// The bytes of `data` from `from` on, with the two bytes of each 16-bit
/// word exchanged.
fn unswap(data: &Vec<u8>, from: usize) -> (stream: Vec<u8>)
    requires
        from <= data.len(),
        (data.len() - from) % 2 == 0,
    ensures
        stream@ == swap_words(data@.skip(from as int)),
{
    let len = data.len();
    let ghost swapped = swap_words(data@.skip(from as int));
    let mut stream: Vec<u8> = Vec::new();
    let mut pointer: usize = from;
    while pointer < len
        invariant
            from <= pointer <= len,
            len == data.len(),
            (len - pointer) % 2 == 0,
            (pointer - from) % 2 == 0,
            swapped == swap_words(data@.skip(from as int)),
            stream@ == swapped.take(pointer - from),
        decreases len - pointer,
    {
        stream.push(data[pointer + 1]);
        stream.push(data[pointer]);
        pointer += 2;
        assert(stream@ =~= swapped.take(pointer - from));
    }
    assert(stream@ =~= swapped);
    stream
}

/// Reads `iterations` tokens from `stream` and hands back the values they
/// stand for.
fn decode_stream(stream: Vec<u8>, iterations: u32, limit: usize) -> (result: Result<
    Vec<u8>,
    SpriteError,
>)
    ensures
        match result {
            Ok(out) => decode_tokens(
                bytes_bits(stream@),
                Seq::empty(),
                iterations as nat,
                limit as int,
            ) == Ok::<Seq<u8>, SpriteError>(out@),
            Err(error) => decode_tokens(
                bytes_bits(stream@),
                Seq::empty(),
                iterations as nat,
                limit as int,
            ) == Err::<Seq<u8>, SpriteError>(error),
        },
{
    let ghost all_bits = bytes_bits(stream@);
    let mut reader = reader_new(stream);
    let mut out: Vec<u8> = Vec::new();
    let mut done: u32 = 0;
    while done < iterations
        invariant
            done <= iterations,
            all_bits == bytes_bits(stream@),
            decode_tokens(all_bits, Seq::empty(), iterations as nat, limit as int)
                == decode_tokens(
                reader_bits(reader),
                out@,
                (iterations - done) as nat,
                limit as int,
            ),
        decreases iterations - done,
    {
        match read_token(&mut reader, &mut out, limit, Ghost((iterations - done - 1) as nat)) {
            Ok(()) => {},
            Err(error) => { return Err(error); },
        }
        done += 1;
    }
    Ok(out)
}

/// Decodes a compressed sprite file, given whole with its parsed header.
///
/// Fails with `InvalidBitDepth` where the header's bit depth is neither 4
/// nor 8; else with `MalformedHeader` where the file ends before its token
/// count does or in the middle of a 16-bit word; else with
/// `TruncatedBitstream` or `InvalidReference` where the token stream does.
/// Otherwise the image has the header's dimensions and bit depth, exactly
/// `width * height` pixels, and the embedded palette if there is one.
pub fn decompress(bin_data: Vec<u8>, header: BinHeader) -> (result: Result<SpriteData, SpriteError>)
    ensures
        decoded_as(result, decompressed(bin_data@, header)),
{
    if header.bit_depth != 4 && header.bit_depth != 8 {
        return Err(SpriteError::InvalidBitDepth);
    }
    proof {
        lemma_two_to_values();
    }
    let palette_size: usize = if header.clut != CLUT_EMBEDDED {
        0
    } else if header.bit_depth == 4 {
        64
    } else {
        1024
    };
    let start: usize = 16 + palette_size;
    let len = bin_data.len();
    if len < start + 4 || (len - start) % 2 != 0 {
        return Err(SpriteError::MalformedHeader);
    }
    assert(header.width as int * header.height as int <= 0xFFFF * 0xFFFF) by (nonlinear_arith)
        requires
            header.width <= 0xFFFF,
            header.height <= 0xFFFF,
    ;
    let pixel_count: usize = header.width as usize * header.height as usize;
    let limit: usize = if header.bit_depth == 4 {
        (pixel_count + 1) / 2
    } else {
        pixel_count
    };
    let palette = slice_of(&bin_data, 16, start);
    let iterations: u32 = bin_data[start + 2] as u32 + 0x100 * (bin_data[start + 3] as u32)
        + 0x1_0000 * (bin_data[start] as u32) + 0x100_0000 * (bin_data[start + 1] as u32);
    assert(iterations == count_value(bin_data@.subrange(start as int, start + 4)));
    let stream = unswap(&bin_data, start + 4);
    let out = match decode_stream(stream, iterations, limit) {
        Ok(out) => out,
        Err(error) => { return Err(error); },
    };
    let mut pixels = if header.bit_depth == 4 {
        bpp_8to4(out, true)
    } else {
        out
    };
    fit(&mut pixels, pixel_count);
    Ok(
        SpriteData {
            width: header.width,
            height: header.height,
            bit_depth: header.bit_depth,
            pixels,
            palette,
        },
    )
}

} // verus!
