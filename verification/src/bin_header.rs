//! The fixed 16-byte header that opens every sprite file.

use vstd::prelude::*;

verus! {

/// Number of bytes the header occupies at the start of a file.
pub const HEADER_SIZE: usize = 16;

/// The value of `clut` that announces a palette right after the header.
pub const CLUT_EMBEDDED: u16 = 0x20;

/// The decoded header. Every bit pattern is a valid header: nothing is
/// checked when one is read or written.
#[derive(Clone, Copy, Debug, PartialEq, Eq, Structural)]
pub struct BinHeader {
    /// The payload is a token stream rather than raw pixels.
    pub compressed: bool,
    /// `0x0020` when a palette follows the header, `0x0000` otherwise.
    pub clut: u16,
    /// Bits per pixel.
    pub bit_depth: u16,
    pub width: u16,
    pub height: u16,
    /// Carried through unchanged; meaning unknown.
    pub tw: u16,
    /// Carried through unchanged; meaning unknown.
    pub th: u16,
    /// Carried through unchanged; has no effect on decoding.
    pub hash: u16,
}

/// The 16-bit value whose little-endian bytes are `lo`, `hi`.
pub open spec fn le_u16(lo: u8, hi: u8) -> u16 {
    (lo as int + 256 * (hi as int)) as u16
}

/// Low byte of a 16-bit value.
pub open spec fn lo_byte(x: u16) -> u8 {
    (x as int % 256) as u8
}

/// High byte of a 16-bit value.
pub open spec fn hi_byte(x: u16) -> u8 {
    (x as int / 256) as u8
}

/// The header that the first 16 bytes of `bytes` describe.
pub open spec fn parse_header(bytes: Seq<u8>) -> BinHeader
    recommends
        bytes.len() >= 16,
{
    BinHeader {
        compressed: bytes[0] == 1,
        clut: le_u16(bytes[2], bytes[3]),
        bit_depth: le_u16(bytes[4], bytes[5]),
        width: le_u16(bytes[6], bytes[7]),
        height: le_u16(bytes[8], bytes[9]),
        tw: le_u16(bytes[10], bytes[11]),
        th: le_u16(bytes[12], bytes[13]),
        hash: le_u16(bytes[14], bytes[15]),
    }
}

/// The 16 bytes that stand for `h` in a file. Byte 1 is reserved and zero.
pub open spec fn header_bytes(h: BinHeader) -> Seq<u8> {
    seq![
        if h.compressed { 1u8 } else { 0u8 },
        0u8,
        lo_byte(h.clut),
        hi_byte(h.clut),
        lo_byte(h.bit_depth),
        hi_byte(h.bit_depth),
        lo_byte(h.width),
        hi_byte(h.width),
        lo_byte(h.height),
        hi_byte(h.height),
        lo_byte(h.tw),
        hi_byte(h.tw),
        lo_byte(h.th),
        hi_byte(h.th),
        lo_byte(h.hash),
        hi_byte(h.hash),
    ]
}

fn read_u16(data: &Vec<u8>, at: usize) -> (x: u16)
    requires
        at + 1 < data.len(),
    ensures
        x == le_u16(data[at as int], data[at + 1]),
{
    let lo: u16 = data[at] as u16;
    let hi: u16 = data[at + 1] as u16;
    lo + 256 * hi
}

fn push_u16(out: &mut Vec<u8>, x: u16)
    ensures
        final(out)@ == old(out)@.push(lo_byte(x)).push(hi_byte(x)),
{
    out.push((x % 256) as u8);
    out.push((x / 256) as u8);
}

/// Reads the header from the first 16 bytes of `data`; byte 1 is ignored.
pub fn get_header(data: Vec<u8>) -> (h: BinHeader)
    requires
        data.len() >= 16,
    ensures
        h == parse_header(data@),
{
    BinHeader {
        compressed: data[0] == 1,
        clut: read_u16(&data, 0x02),
        bit_depth: read_u16(&data, 0x04),
        width: read_u16(&data, 0x06),
        height: read_u16(&data, 0x08),
        tw: read_u16(&data, 0x0A),
        th: read_u16(&data, 0x0C),
        hash: read_u16(&data, 0x0E),
    }
}

/// Writes the header out as its 16 bytes.
pub fn get_bytes(header: BinHeader) -> (bytes: Vec<u8>)
    ensures
        bytes@ == header_bytes(header),
        bytes.len() == 16,
{
    let mut out: Vec<u8> = Vec::with_capacity(HEADER_SIZE);
    out.push(if header.compressed { 1u8 } else { 0u8 });
    out.push(0x00);
    push_u16(&mut out, header.clut);
    push_u16(&mut out, header.bit_depth);
    push_u16(&mut out, header.width);
    push_u16(&mut out, header.height);
    push_u16(&mut out, header.tw);
    push_u16(&mut out, header.th);
    push_u16(&mut out, header.hash);
    out
}

/// Splitting a 16-bit value into its two bytes and joining them again
/// gives the value back.
pub proof fn lemma_le_u16_join(x: u16)
    ensures
        le_u16(lo_byte(x), hi_byte(x)) == x,
{
}

/// Joining two bytes and splitting the result gives the bytes back.
pub proof fn lemma_le_u16_split(lo: u8, hi: u8)
    ensures
        lo_byte(le_u16(lo, hi)) == lo,
        hi_byte(le_u16(lo, hi)) == hi,
{
}

/// A header that is written and read again is unchanged, whatever its
/// fields hold.
pub proof fn lemma_header_round_trip(h: BinHeader)
    ensures
        header_bytes(h).len() == 16,
        parse_header(header_bytes(h)) == h,
{
    lemma_le_u16_join(h.clut);
    lemma_le_u16_join(h.bit_depth);
    lemma_le_u16_join(h.width);
    lemma_le_u16_join(h.height);
    lemma_le_u16_join(h.tw);
    lemma_le_u16_join(h.th);
    lemma_le_u16_join(h.hash);
}

/// Sixteen bytes that are read as a header and written again are
/// unchanged, but for the mode byte, which is normalised to 0 or 1, and
/// the reserved byte, which is written as zero.
pub proof fn lemma_bytes_round_trip(bytes: Seq<u8>)
    requires
        bytes.len() == 16,
    ensures
        header_bytes(parse_header(bytes)) == bytes.update(
            0,
            if bytes[0] == 1 { 1u8 } else { 0u8 },
        ).update(1, 0u8),
{
    lemma_le_u16_split(bytes[2], bytes[3]);
    lemma_le_u16_split(bytes[4], bytes[5]);
    lemma_le_u16_split(bytes[6], bytes[7]);
    lemma_le_u16_split(bytes[8], bytes[9]);
    lemma_le_u16_split(bytes[10], bytes[11]);
    lemma_le_u16_split(bytes[12], bytes[13]);
    lemma_le_u16_split(bytes[14], bytes[15]);
    assert(header_bytes(parse_header(bytes)) =~= bytes.update(
        0,
        if bytes[0] == 1 { 1u8 } else { 0u8 },
    ).update(1, 0u8));
}

} // verus!
