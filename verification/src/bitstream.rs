//! Bit sequences, most significant bit first, and the bit writer and
//! reader that frame tokens.
//!
//! The writer and the reader are those of `bitstream_io`. What they hold is
//! modelled as a `Seq<bool>`: the bits written so far, or the bits not yet
//! read. The contracts of the functions that call into `bitstream_io` are
//! taken on trust; everything else here is proved.

use vstd::prelude::*;
use bitstream_io::{BigEndian, BitRead, BitReader, BitWrite, BitWriter};
use std::io::Cursor;

verus! {

/// Two to the power `n`.
pub open spec fn two_to(n: nat) -> int
    decreases n,
{
    if n == 0 {
        1
    } else {
        2 * two_to((n - 1) as nat)
    }
}

/// The `n` low bits of `value`, most significant first.
pub open spec fn be_bits(value: int, n: nat) -> Seq<bool>
    decreases n,
{
    if n == 0 {
        Seq::empty()
    } else {
        be_bits(value / 2, (n - 1) as nat).push(value % 2 == 1)
    }
}

/// The number that `bits` spell, most significant bit first.
pub open spec fn bits_value(bits: Seq<bool>) -> int
    decreases bits.len(),
{
    if bits.len() == 0 {
        0
    } else {
        2 * bits_value(bits.drop_last()) + if bits.last() {
            1int
        } else {
            0int
        }
    }
}

/// The bits of a byte string: eight per byte, most significant first.
pub open spec fn bytes_bits(bytes: Seq<u8>) -> Seq<bool> {
    Seq::new(8 * bytes.len(), |i: int| be_bits(bytes[i / 8] as int, 8)[i % 8])
}

/// The whole bytes that a bit string fills; a trailing group of fewer than
/// eight bits is left out.
pub open spec fn bits_bytes(bits: Seq<bool>) -> Seq<u8> {
    Seq::new(bits.len() / 8, |i: int| bits_value(bits.subrange(8 * i, 8 * i + 8)) as u8)
}

/// `n` zero bits.
pub open spec fn zero_bits(n: nat) -> Seq<bool> {
    Seq::new(n, |i: int| false)
}

/// The number of zero bits that bring a stream of `len` bits to a byte
/// boundary.
pub open spec fn align_gap(len: nat) -> nat {
    ((8 - len % 8) % 8) as nat
}

/// `bits` followed by the zero bits that bring it to a byte boundary.
pub open spec fn aligned(bits: Seq<bool>) -> Seq<bool> {
    bits + zero_bits(align_gap(bits.len()))
}

/// The powers of two that field widths and colour counts call for.
pub proof fn lemma_two_to_values()
    ensures
        two_to(0) == 1,
        two_to(1) == 2,
        two_to(4) == 16,
        two_to(7) == 128,
        two_to(8) == 256,
        two_to(9) == 512,
        two_to(16) == 65536,
{
    reveal_with_fuel(two_to, 17);
}

/// The `n` low bits of a number are `n` bits.
pub proof fn lemma_be_bits_len(value: int, n: nat)
    ensures
        be_bits(value, n).len() == n,
    decreases n,
{
    if n > 0 {
        lemma_be_bits_len(value / 2, (n - 1) as nat);
    }
}

/// A number below `2^n` is the value of its `n` bits.
pub proof fn lemma_value_of_bits(value: int, n: nat)
    requires
        0 <= value < two_to(n),
    ensures
        bits_value(be_bits(value, n)) == value,
    decreases n,
{
    if n > 0 {
        let rest = be_bits(value / 2, (n - 1) as nat);
        lemma_value_of_bits(value / 2, (n - 1) as nat);
        assert(be_bits(value, n).drop_last() =~= rest);
    }
}

/// A bit string spells a number below `2^len`, whose bits are the string.
pub proof fn lemma_bits_of_value(bits: Seq<bool>)
    ensures
        0 <= bits_value(bits) < two_to(bits.len()),
        be_bits(bits_value(bits), bits.len()) == bits,
    decreases bits.len(),
{
    if bits.len() > 0 {
        lemma_bits_of_value(bits.drop_last());
        let v = bits_value(bits);
        let head = bits_value(bits.drop_last());
        assert(v / 2 == head);
        assert((v % 2 == 1) == bits.last());
        assert(be_bits(v, bits.len()) =~= bits);
    } else {
        assert(be_bits(0, 0) =~= bits);
    }
}

/// Eight bits spell a byte.
pub proof fn lemma_byte_value(bits: Seq<bool>)
    requires
        bits.len() == 8,
    ensures
        0 <= bits_value(bits) < 256,
{
    lemma_bits_of_value(bits);
    lemma_two_to_values();
}

/// The bits of a byte string fill exactly that byte string.
pub proof fn lemma_bytes_of_bits(bytes: Seq<u8>)
    ensures
        bits_bytes(bytes_bits(bytes)) == bytes,
{
    let bits = bytes_bits(bytes);
    assert forall|i: int| 0 <= i < bytes.len() implies #[trigger] bits_bytes(bits)[i]
        == bytes[i] by {
        let group = bits.subrange(8 * i, 8 * i + 8);
        let whole = be_bits(bytes[i] as int, 8);
        lemma_be_bits_len(bytes[i] as int, 8);
        assert forall|k: int| 0 <= k < 8 implies group[k] == whole[k] by {
            assert(group[k] == bits[8 * i + k]);
            assert((8 * i + k) / 8 == i);
            assert((8 * i + k) % 8 == k);
        }
        assert(group =~= whole);
        lemma_two_to_values();
        lemma_value_of_bits(bytes[i] as int, 8);
    }
    assert(bits_bytes(bits) =~= bytes);
}

/// A bit string of whole bytes is the bit string of the bytes it fills.
pub proof fn lemma_bits_of_bytes(bits: Seq<bool>)
    requires
        bits.len() % 8 == 0,
    ensures
        bytes_bits(bits_bytes(bits)) == bits,
{
    let bytes = bits_bytes(bits);
    assert forall|j: int| 0 <= j < bits.len() implies #[trigger] bytes_bits(bytes)[j]
        == bits[j] by {
        let i = j / 8;
        let group = bits.subrange(8 * i, 8 * i + 8);
        lemma_byte_value(group);
        lemma_bits_of_value(group);
        assert(bytes[i] as int == bits_value(group));
        assert(group[j % 8] == bits[8 * i + j % 8]);
    }
    assert(bytes_bits(bytes) =~= bits);
}

/// The bits of two byte strings joined are their bits joined.
pub proof fn lemma_bytes_bits_concat(a: Seq<u8>, b: Seq<u8>)
    ensures
        bytes_bits(a + b) == bytes_bits(a) + bytes_bits(b),
{
    assert forall|j: int| 0 <= j < 8 * (a.len() + b.len()) implies #[trigger] bytes_bits(a + b)[j]
        == (bytes_bits(a) + bytes_bits(b))[j] by {
        if j < 8 * a.len() {
            assert((a + b)[j / 8] == a[j / 8]);
        } else {
            let k = j - 8 * a.len();
            assert(j / 8 == a.len() + k / 8);
            assert(j % 8 == k % 8);
            assert((a + b)[j / 8] == b[k / 8]);
        }
    }
    assert(bytes_bits(a + b) =~= bytes_bits(a) + bytes_bits(b));
}

/// A bit string brought to a byte boundary fills whole bytes.
pub proof fn lemma_aligned_len(bits: Seq<bool>)
    ensures
        aligned(bits).len() % 8 == 0,
        aligned(bits).len() >= bits.len(),
        aligned(bits).len() < bits.len() + 8,
{
}

/// `bitstream_io::BitWriter` over a `Vec<u8>`, big-endian: a bit writer
/// that collects what is written in a byte buffer.
#[verifier::external_body]
pub struct BitSink {
    inner: BitWriter<Vec<u8>, BigEndian>,
}

/// `bitstream_io::BitReader` over a `Cursor` on a `Vec<u8>`, big-endian: a
/// bit reader over a byte buffer.
#[verifier::external_body]
pub struct BitSource {
    inner: BitReader<Cursor<Vec<u8>>, BigEndian>,
}

/// The bits written to a writer so far, oldest first.
pub uninterp spec fn writer_bits(w: BitSink) -> Seq<bool>;

/// The bits that a reader has not handed out yet, next first.
pub uninterp spec fn reader_bits(r: BitSource) -> Seq<bool>;

/// `BitWriter::endian` over an empty `Vec<u8>`, big-endian: a writer to
/// which nothing has been written.
#[verifier::external_body]
pub(crate) fn writer_new() -> (w: BitSink)
    ensures
        writer_bits(w) == Seq::<bool>::empty(),
{
    BitSink { inner: BitWriter::endian(Vec::new(), BigEndian) }
}

/// `BitWrite::write_bit`: appends one bit. Writing into a `Vec<u8>` cannot
/// fail, so the result is dropped.
#[verifier::external_body]
pub(crate) fn write_bit(w: &mut BitSink, bit: bool)
    ensures
        writer_bits(*final(w)) == writer_bits(*old(w)).push(bit),
{
    let _ = w.inner.write_bit(bit);
}

/// `BitWrite::write` with a `u16` value: appends the `bits` low bits of
/// `value`, most significant first. The call reports an error, and writes
/// nothing, where `value` does not fit in `bits` bits: such calls are ruled
/// out here.
#[verifier::external_body]
pub(crate) fn write_bits(w: &mut BitSink, bits: u32, value: u16)
    requires
        1 <= bits <= 16,
        (value as int) < two_to(bits as nat),
    ensures
        writer_bits(*final(w)) == writer_bits(*old(w)) + be_bits(value as int, bits as nat),
{
    let _ = w.inner.write(bits, value);
}

/// `BitWrite::byte_align`: appends zero bits up to the next byte boundary,
/// none if the stream is at one.
#[verifier::external_body]
pub(crate) fn byte_align(w: &mut BitSink)
    ensures
        writer_bits(*final(w)) == aligned(writer_bits(*old(w))),
{
    let _ = w.inner.byte_align();
}

/// `BitWriter::into_writer`: hands back the byte buffer, which holds every
/// whole byte written; bits of an unfinished byte are dropped.
#[verifier::external_body]
pub(crate) fn writer_bytes(w: BitSink) -> (bytes: Vec<u8>)
    ensures
        bytes@ == bits_bytes(writer_bits(w)),
{
    w.inner.into_writer()
}

/// `BitReader::endian` over a `Cursor` on `bytes`, big-endian: a reader
/// that has all the bits of `bytes` before it.
#[verifier::external_body]
pub(crate) fn reader_new(bytes: Vec<u8>) -> (r: BitSource)
    ensures
        reader_bits(r) == bytes_bits(bytes@),
{
    BitSource { inner: BitReader::endian(Cursor::new(bytes), BigEndian) }
}

/// `BitRead::read_bit`: hands out the next bit, or fails when none is
/// left. Nothing is claimed of the reader after a failure.
#[verifier::external_body]
pub(crate) fn read_bit(r: &mut BitSource) -> (bit: Option<bool>)
    ensures
        bit is Some <==> reader_bits(*old(r)).len() >= 1,
        bit is Some ==> bit->0 == reader_bits(*old(r))[0],
        bit is Some ==> reader_bits(*final(r)) == reader_bits(*old(r)).skip(1),
{
    r.inner.read_bit().ok()
}

/// `BitRead::read` into a `u16`: hands out the number that the next `bits`
/// bits spell, most significant first, or fails when fewer are left.
/// Nothing is claimed of the reader after a failure.
#[verifier::external_body]
pub(crate) fn read_bits(r: &mut BitSource, bits: u32) -> (value: Option<u16>)
    requires
        1 <= bits <= 16,
    ensures
        value is Some <==> reader_bits(*old(r)).len() >= bits,
        value is Some ==> value->0 as int == bits_value(
            reader_bits(*old(r)).take(bits as int),
        ),
        value is Some ==> reader_bits(*final(r)) == reader_bits(*old(r)).skip(bits as int),
{
    r.inner.read::<u16>(bits).ok()
}

} // verus!
