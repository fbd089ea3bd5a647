//! Copying between byte vectors.

use vstd::prelude::*;

verus! {

/// Appends all of `source` to `target`.
pub fn append(target: &mut Vec<u8>, source: &Vec<u8>)
    ensures
        final(target)@ == old(target)@ + source@,
{
    let ghost before = target@;
    let mut index: usize = 0;
    while index < source.len()
        invariant
            index <= source.len(),
            target@ == before + source@.take(index as int),
        decreases source.len() - index,
    {
        target.push(source[index]);
        index += 1;
        assert(target@ =~= before + source@.take(index as int));
    }
    assert(target@ =~= before + source@);
}

/// The bytes of `source` from `from` up to, not including, `to`.
pub fn slice_of(source: &Vec<u8>, from: usize, to: usize) -> (part: Vec<u8>)
    requires
        from <= to <= source.len(),
    ensures
        part@ == source@.subrange(from as int, to as int),
{
    let mut part: Vec<u8> = Vec::new();
    let mut index: usize = from;
    while index < to
        invariant
            from <= index <= to <= source.len(),
            part@ == source@.subrange(from as int, index as int),
        decreases to - index,
    {
        part.push(source[index]);
        index += 1;
        assert(part@ =~= source@.subrange(from as int, index as int));
    }
    part
}

/// `count` zero bytes.
pub open spec fn zeros(count: int) -> Seq<u8> {
    Seq::new(count as nat, |i: int| 0u8)
}

/// Appends `count` bytes of `source`, starting at `from`, to `target`.
pub fn append_range(target: &mut Vec<u8>, source: &Vec<u8>, from: usize, count: usize)
    requires
        from + count <= source.len(),
    ensures
        final(target)@ == old(target)@ + source@.subrange(from as int, from + count),
{
    let ghost before = target@;
    let mut index: usize = 0;
    while index < count
        invariant
            index <= count,
            from + count <= source.len(),
            target@ == before + source@.subrange(from as int, from + index),
        decreases count - index,
    {
        target.push(source[from + index]);
        index += 1;
        assert(target@ =~= before + source@.subrange(from as int, from + index));
    }
}

/// Appends `count` zero bytes to `target`.
pub fn append_zeros(target: &mut Vec<u8>, count: usize)
    ensures
        final(target)@ == old(target)@ + zeros(count as int),
{
    let ghost before = target@;
    let mut index: usize = 0;
    while index < count
        invariant
            index <= count,
            target@ == before + zeros(index as int),
        decreases count - index,
    {
        target.push(0u8);
        index += 1;
        assert(target@ =~= before + zeros(index as int));
    }
}

} // verus!
