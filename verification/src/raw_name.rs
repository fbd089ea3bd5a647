//! The dimensions that the name of a raw pixel dump carries.
//!
//! A raw file has no header. Its name is cut at every `-`; the piece after
//! a piece `w` is its width and the piece after a piece `h` its height, as
//! in `stance-W-64-H-128`. Letter case does not matter.

use vstd::prelude::*;

verus! {

/// The place of the first `-` at or after `from`, or the end of the name.
pub open spec fn piece_end(name: Seq<u8>, from: int) -> int
    decreases name.len() - from,
{
    if from < 0 || from >= name.len() || name[from] == 0x2D {
        from
    } else {
        piece_end(name, from + 1)
    }
}

/// Whether every byte is a decimal digit.
pub open spec fn all_digits(piece: Seq<u8>) -> bool {
    forall|i: int| 0 <= i < piece.len() ==> 0x30 <= #[trigger] piece[i] <= 0x39
}

/// The number that decimal digits spell.
pub open spec fn digits_value(piece: Seq<u8>) -> int
    decreases piece.len(),
{
    if piece.len() == 0 {
        0
    } else {
        10 * digits_value(piece.drop_last()) + (piece.last() - 0x30)
    }
}

/// The number that a piece spells: decimal digits, at least one, with or
/// without a `+` before them, that spell at most 65535. Any other piece
/// counts as zero.
pub open spec fn parsed_u16(piece: Seq<u8>) -> u16 {
    let digits = if piece.len() > 0 && piece[0] == 0x2B {
        piece.skip(1)
    } else {
        piece
    };
    if digits.len() > 0 && all_digits(digits) && digits_value(digits) <= 0xFFFF {
        digits_value(digits) as u16
    } else {
        0u16
    }
}

/// Whether a piece is the single letter whose lower-case form is `lower`.
pub open spec fn is_key(piece: Seq<u8>, lower: u8) -> bool {
    piece.len() == 1 && (piece[0] == lower || piece[0] == lower - 0x20)
}

/// The dimensions after the pieces from `from` on have been looked at,
/// with `dims` found before them. A later width or height replaces an
/// earlier one, and the last piece of a name is never a key.
pub open spec fn scan_dims(name: Seq<u8>, from: int, dims: (u16, u16)) -> (u16, u16)
    decreases name.len() - from,
{
    let end = piece_end(name, from);
    if from < 0 || end >= name.len() || end < from {
        dims
    } else {
        let value = parsed_u16(name.subrange(end + 1, piece_end(name, end + 1)));
        let piece = name.subrange(from, end);
        scan_dims(
            name,
            end + 1,
            if is_key(piece, 0x77) {
                (value, dims.1)
            } else if is_key(piece, 0x68) {
                (dims.0, value)
            } else {
                dims
            },
        )
    }
}

/// The width and the height that a name carries, each zero where the name
/// does not say.
pub open spec fn name_dims(name: Seq<u8>) -> (u16, u16) {
    scan_dims(name, 0, (0u16, 0u16))
}

/// Digits spell at least what fewer of them spell.
pub proof fn lemma_digits_grow(piece: Seq<u8>, shorter: int)
    requires
        all_digits(piece),
        0 <= shorter <= piece.len(),
    ensures
        0 <= digits_value(piece.take(shorter)) <= digits_value(piece),
    decreases piece.len() - shorter,
{
    if shorter < piece.len() {
        lemma_digits_grow(piece, shorter + 1);
        let longer = piece.take(shorter + 1);
        assert(longer.drop_last() =~= piece.take(shorter));
        assert(0x30 <= longer.last() <= 0x39) by {
            assert(longer.last() == piece[shorter]);
        }
        lemma_digits_positive(piece.take(shorter));
    } else {
        assert(piece.take(shorter) =~= piece);
        lemma_digits_positive(piece);
    }
}

/// Digits spell no negative number.
pub proof fn lemma_digits_positive(piece: Seq<u8>)
    requires
        all_digits(piece),
    ensures
        0 <= digits_value(piece),
    decreases piece.len(),
{
    if piece.len() > 0 {
        assert(all_digits(piece.drop_last())) by {
            assert forall|i: int| 0 <= i < piece.drop_last().len() implies 0x30
                <= #[trigger] piece.drop_last()[i] <= 0x39 by {
                assert(piece.drop_last()[i] == piece[i]);
            }
        }
        lemma_digits_positive(piece.drop_last());
        assert(0x30 <= piece[piece.len() - 1]);
    }
}

fn find_end(name: &Vec<u8>, from: usize) -> (end: usize)
    requires
        from <= name.len(),
    ensures
        end == piece_end(name@, from as int),
        from <= end <= name.len(),
{
    let mut end: usize = from;
    while end < name.len() && name[end] != 0x2D
        invariant
            from <= end <= name.len(),
            piece_end(name@, from as int) == piece_end(name@, end as int),
        decreases name.len() - end,
    {
        end += 1;
    }
    end
}

/// Reads the number that the bytes from `from` up to `to` spell.
fn parse_piece(name: &Vec<u8>, from: usize, to: usize) -> (value: u16)
    requires
        from <= to <= name.len(),
    ensures
        value == parsed_u16(name@.subrange(from as int, to as int)),
{
    let ghost piece = name@.subrange(from as int, to as int);
    let start: usize = if from < to && name[from] == 0x2B {
        from + 1
    } else {
        from
    };
    let ghost digits = name@.subrange(start as int, to as int);
    assert(digits =~= if piece.len() > 0 && piece[0] == 0x2B {
        piece.skip(1)
    } else {
        piece
    });
    if start == to {
        return 0;
    }
    assert(parsed_u16(piece) == if all_digits(digits) && digits_value(digits) <= 0xFFFF {
        digits_value(digits) as u16
    } else {
        0u16
    });
    let mut value: u32 = 0;
    let mut index: usize = start;
    while index < to
        invariant
            start <= index <= to <= name.len(),
            digits == name@.subrange(start as int, to as int),
            piece == name@.subrange(from as int, to as int),
            parsed_u16(piece) == if all_digits(digits) && digits_value(digits) <= 0xFFFF {
                digits_value(digits) as u16
            } else {
                0u16
            },
            all_digits(digits.take(index - start)),
            value == digits_value(digits.take(index - start)),
            value <= 0xFFFF,
        decreases to - index,
    {
        let byte = name[index];
        let ghost more = digits.take(index - start + 1);
        assert(more.drop_last() =~= digits.take(index - start));
        assert(more.last() == byte);
        if byte < 0x30 || byte > 0x39 {
            assert(!all_digits(digits)) by {
                assert(digits[index - start] == byte);
            }
            return 0;
        }
        assert(all_digits(more)) by {
            assert forall|i: int| 0 <= i < more.len() implies 0x30 <= #[trigger] more[i]
                <= 0x39 by {
                if i < index - start {
                    assert(more[i] == digits.take(index - start)[i]);
                }
            }
        }
        let next: u32 = 10 * value + (byte - 0x30) as u32;
        if next > 0xFFFF {
            proof {
                if all_digits(digits) {
                    lemma_digits_grow(digits, index - start + 1);
                }
            }
            return 0;
        }
        value = next;
        index += 1;
    }
    assert(digits.take(to - start) =~= digits);
    value as u16
}

/// Reads the width and the height out of the name of a raw pixel dump.
/// Each is zero where the name does not say, or says what is no number up
/// to 65535.
pub fn raw_dimensions(name: &Vec<u8>) -> (dims: (u16, u16))
    ensures
        dims == name_dims(name@),
{
    let len = name.len();
    let mut width: u16 = 0;
    let mut height: u16 = 0;
    let mut from: usize = 0;
    let mut end: usize = find_end(name, 0);
    while end < len
        invariant
            from <= end <= len,
            len == name.len(),
            end == piece_end(name@, from as int),
            name_dims(name@) == scan_dims(name@, from as int, (width, height)),
        decreases len - from,
    {
        let next_end = find_end(name, end + 1);
        let value = parse_piece(name, end + 1, next_end);
        let ghost piece = name@.subrange(from as int, end as int);
        if end - from == 1 {
            assert(piece[0] == name[from as int]);
            if name[from] == 0x77 || name[from] == 0x57 {
                width = value;
            } else if name[from] == 0x68 || name[from] == 0x48 {
                height = value;
            }
        }
        from = end + 1;
        end = next_end;
    }
    (width, height)
}

/// The decimal digits of a number, without leading zeros.
pub open spec fn decimal(n: nat) -> Seq<u8>
    decreases n,
{
    if n < 10 {
        seq![(0x30 + n) as u8]
    } else {
        decimal(n / 10).push((0x30 + n % 10) as u8)
    }
}

/// What is added to the name of a sprite to carry its dimensions:
/// `-W-`, the width, `-H-` and the height.
pub open spec fn dims_suffix(width: u16, height: u16) -> Seq<u8> {
    seq![0x2Du8, 0x57u8, 0x2Du8] + decimal(width as nat) + seq![0x2Du8, 0x48u8, 0x2Du8] + decimal(
        height as nat,
    )
}

/// The name of the raw pixel dump of a sprite: the name of the sprite, its
/// dimensions, and the extension `.raw`.
pub open spec fn raw_name(stem: Seq<u8>, width: u16, height: u16) -> Seq<u8> {
    stem + dims_suffix(width, height) + seq![0x2Eu8, 0x72u8, 0x61u8, 0x77u8]
}

/// The digits of a number are digits, at least one, and spell the number.
pub proof fn lemma_decimal(n: nat)
    ensures
        decimal(n).len() >= 1,
        all_digits(decimal(n)),
        digits_value(decimal(n)) == n,
    decreases n,
{
    if n < 10 {
        let one = decimal(n);
        assert(one.drop_last() =~= Seq::<u8>::empty());
        assert(digits_value(one.drop_last()) == 0);
        assert(one.last() == 0x30 + n);
    } else {
        lemma_decimal(n / 10);
        let more = decimal(n);
        assert(more.drop_last() =~= decimal(n / 10));
        assert(more.last() == 0x30 + n % 10);
        assert(digits_value(more) == 10 * digits_value(more.drop_last()) + (more.last() - 0x30));
        assert forall|i: int| 0 <= i < more.len() implies 0x30 <= #[trigger] more[i] <= 0x39 by {
            if i < more.len() - 1 {
                assert(more[i] == decimal(n / 10)[i]);
            }
        }
    }
}

/// A number that is written out is read back.
pub proof fn lemma_decimal_parsed(n: u16)
    ensures
        parsed_u16(decimal(n as nat)) == n,
{
    lemma_decimal(n as nat);
    assert(decimal(n as nat)[0] != 0x2B);
}

/// A piece that holds no `-` ends where the next `-` stands, or where the
/// name ends.
pub proof fn lemma_piece_end_at(name: Seq<u8>, from: int, end: int)
    requires
        0 <= from <= end <= name.len(),
        forall|i: int| from <= i < end ==> #[trigger] name[i] != 0x2D,
        end == name.len() || name[end] == 0x2D,
    ensures
        piece_end(name, from) == end,
    decreases end - from,
{
    if from < end {
        lemma_piece_end_at(name, from + 1, end);
    }
}

/// A piece ends at the first `-` after its start.
pub proof fn lemma_piece_end_before(name: Seq<u8>, from: int, dash: int)
    requires
        0 <= from <= dash < name.len(),
        name[dash] == 0x2D,
    ensures
        from <= piece_end(name, from) <= dash,
        name[piece_end(name, from)] == 0x2D,
    decreases dash - from,
{
    if name[from] != 0x2D {
        lemma_piece_end_before(name, from + 1, dash);
    }
}

/// The dimensions at the end of a name are the ones that are read,
/// whatever was found before them.
proof fn lemma_suffix_scan(stem: Seq<u8>, width: u16, height: u16, dims: (u16, u16))
    ensures
        scan_dims(stem + dims_suffix(width, height), stem.len() as int + 1, dims) == (
            width,
            height,
        ),
{
    let wide = decimal(width as nat);
    let high = decimal(height as nat);
    let name = stem + dims_suffix(width, height);
    let s = stem.len() as int;
    let a = s + 3 + wide.len();
    lemma_decimal(width as nat);
    lemma_decimal(height as nat);
    lemma_decimal_parsed(width);
    lemma_decimal_parsed(height);
    assert(name.len() == a + 3 + high.len());
    assert(name[s] == 0x2D && name[s + 1] == 0x57 && name[s + 2] == 0x2D);
    assert(name[a] == 0x2D && name[a + 1] == 0x48 && name[a + 2] == 0x2D);
    assert forall|i: int| s + 3 <= i < a implies #[trigger] name[i] != 0x2D by {
        assert(name[i] == wide[i - s - 3]);
    }
    assert forall|i: int| a + 3 <= i < name.len() implies #[trigger] name[i] != 0x2D by {
        assert(name[i] == high[i - a - 3]);
    }
    lemma_piece_end_at(name, s + 1, s + 2);
    lemma_piece_end_at(name, s + 3, a);
    lemma_piece_end_at(name, a + 1, a + 2);
    lemma_piece_end_at(name, a + 3, name.len() as int);
    assert(name.subrange(s + 3, a) =~= wide);
    assert(name.subrange(a + 3, name.len() as int) =~= high);
    let key_w = name.subrange(s + 1, s + 2);
    let key_h = name.subrange(a + 1, a + 2);
    assert(key_w[0] == 0x57 && key_h[0] == 0x48);
    assert(is_key(key_w, 0x77));
    assert(is_key(key_h, 0x68) && !is_key(key_h, 0x77));
    assert(!is_key(wide, 0x77) && !is_key(wide, 0x68)) by {
        assert(0x30 <= wide[0] <= 0x39);
    }
    assert(parsed_u16(key_h) == 0) by {
        assert(!all_digits(key_h));
    }
    let after_w = (width, dims.1);
    let done = (width, height);
    assert(scan_dims(name, a + 3, done) == done);
    assert(scan_dims(name, a + 1, after_w) == scan_dims(name, a + 3, done));
    assert(scan_dims(name, s + 3, after_w) == scan_dims(name, a + 1, after_w));
    assert(scan_dims(name, s + 1, dims) == scan_dims(name, s + 3, after_w));
}

/// A name that ends in the dimensions of a sprite carries them, whatever
/// stands before them and whatever was found before `from`.
pub proof fn lemma_named_dims_found(
    stem: Seq<u8>,
    width: u16,
    height: u16,
    from: int,
    dims: (u16, u16),
)
    requires
        0 <= from <= stem.len(),
    ensures
        scan_dims(stem + dims_suffix(width, height), from, dims) == (width, height),
    decreases stem.len() - from,
{
    let name = stem + dims_suffix(width, height);
    let s = stem.len() as int;
    lemma_decimal(width as nat);
    lemma_decimal(height as nat);
    assert(name[s] == 0x2D);
    lemma_piece_end_before(name, from, s);
    let end = piece_end(name, from);
    let value = parsed_u16(name.subrange(end + 1, piece_end(name, end + 1)));
    let piece = name.subrange(from, end);
    let next = if is_key(piece, 0x77) {
        (value, dims.1)
    } else if is_key(piece, 0x68) {
        (dims.0, value)
    } else {
        dims
    };
    assert(scan_dims(name, from, dims) == scan_dims(name, end + 1, next));
    if end == s {
        lemma_suffix_scan(stem, width, height, next);
    } else {
        lemma_named_dims_found(stem, width, height, end + 1, next);
    }
}

/// The name that a raw pixel dump is written under carries the dimensions
/// of the sprite: read back without its extension, it gives them.
pub proof fn lemma_raw_name_round_trip(stem: Seq<u8>, width: u16, height: u16)
    ensures
        name_dims(stem + dims_suffix(width, height)) == (width, height),
{
    lemma_named_dims_found(stem, width, height, 0, (0u16, 0u16));
}

/// Appends the decimal digits of `n`.
fn push_decimal(out: &mut Vec<u8>, n: u16)
    ensures
        final(out)@ == old(out)@ + decimal(n as nat),
{
    let ghost before = out@;
    proof {
        reveal_with_fuel(decimal, 6);
    }
    if n >= 10000 {
        out.push(0x30 + (n / 10000) as u8);
    }
    if n >= 1000 {
        out.push(0x30 + (n / 1000 % 10) as u8);
    }
    if n >= 100 {
        out.push(0x30 + (n / 100 % 10) as u8);
    }
    if n >= 10 {
        out.push(0x30 + (n / 10 % 10) as u8);
    }
    out.push(0x30 + (n % 10) as u8);
    assert(out@ =~= before + decimal(n as nat));
}

/// Builds the name of the raw pixel dump of a sprite from the name of the
/// sprite and its dimensions.
pub fn raw_file_name(stem: &Vec<u8>, width: u16, height: u16) -> (name: Vec<u8>)
    ensures
        name@ == raw_name(stem@, width, height),
{
    let mut name: Vec<u8> = Vec::new();
    crate::buffer::append(&mut name, stem);
    name.push(0x2D);
    name.push(0x57);
    name.push(0x2D);
    push_decimal(&mut name, width);
    name.push(0x2D);
    name.push(0x48);
    name.push(0x2D);
    push_decimal(&mut name, height);
    name.push(0x2E);
    name.push(0x72);
    name.push(0x61);
    name.push(0x77);
    assert(name@ =~= raw_name(stem@, width, height));
    name
}

} // verus!
