//! The match finder of the encoder: for a position in a pixel stream, the
//! best run of earlier pixels that repeats there.

use vstd::prelude::*;

verus! {

/// How far back a match may start.
pub const WINDOW_SIZE: usize = 512;

/// The longest run one match token can stand for.
pub const TOKEN_SIZE_MAX: usize = 130;

/// The number of offsets that are tried, counted from the window origin.
/// It is two short of the window size: the last two places of the window
/// are never the start of a match.
pub const OFFSET_COUNT: usize = 510;

/// Where the window of `position` begins.
pub open spec fn window_origin(position: int) -> int {
    if position > WINDOW_SIZE {
        position - WINDOW_SIZE
    } else {
        0
    }
}

/// The longest run that may be matched at `position`: no longer than a
/// token holds, than the pixels before `position`, or than the pixels from
/// `position` to the end.
pub open spec fn match_limit(pixels: Seq<u8>, position: int) -> int {
    let ahead = pixels.len() - position;
    let cap = if position < TOKEN_SIZE_MAX {
        position
    } else {
        TOKEN_SIZE_MAX as int
    };
    if ahead < cap {
        ahead
    } else {
        cap
    }
}

/// Counts on from `count` while the pixel at `position + count` equals the
/// one at `source + count`, the latter lies before `position`, and `count`
/// is below `limit`.
pub open spec fn run_from(
    pixels: Seq<u8>,
    position: int,
    source: int,
    limit: int,
    count: int,
) -> int
    decreases limit - count,
{
    if count < limit && source + count < position && pixels[position + count] == pixels[source
        + count] {
        run_from(pixels, position, source, limit, count + 1)
    } else {
        count
    }
}

/// The length of the run at `position` that repeats the pixels `offset`
/// places after the window origin.
pub open spec fn run_length(pixels: Seq<u8>, position: int, offset: int) -> int {
    run_from(
        pixels,
        position,
        window_origin(position) + offset,
        match_limit(pixels, position),
        0,
    )
}

/// The best `(offset, length)` among the first `tried` offsets, taken in
/// ascending order: a run replaces the best so far only if it is strictly
/// longer.
pub open spec fn best_upto(pixels: Seq<u8>, position: int, tried: nat) -> (int, int)
    decreases tried,
{
    if tried == 0 {
        (0, 0)
    } else {
        let before = best_upto(pixels, position, (tried - 1) as nat);
        let run = run_length(pixels, position, tried - 1);
        if run > before.1 {
            (tried - 1, run)
        } else {
            before
        }
    }
}

/// The best `(offset, length)` at `position` over all offsets tried.
pub open spec fn best_match(pixels: Seq<u8>, position: int) -> (int, int) {
    best_upto(pixels, position, OFFSET_COUNT as nat)
}

/// A run counted on from `count` ends between `count` and the limit.
pub proof fn lemma_run_bounds(pixels: Seq<u8>, position: int, source: int, limit: int, count: int)
    requires
        count <= limit || count == 0,
    ensures
        count <= run_from(pixels, position, source, limit, count),
        run_from(pixels, position, source, limit, count) <= limit || run_from(
            pixels,
            position,
            source,
            limit,
            count,
        ) == 0,
    decreases limit - count,
{
    if count < limit && source + count < position && pixels[position + count] == pixels[source
        + count] {
        lemma_run_bounds(pixels, position, source, limit, count + 1);
    }
}

/// Whether the pixel `count` places after `position` repeats the one
/// `count` places after `source`, which lies before `position`.
pub open spec fn repeats(pixels: Seq<u8>, position: int, source: int, count: int) -> bool {
    source + count < position && pixels[position + count] == pixels[source + count]
}

/// Every pixel of a run repeats a pixel before `position`, and the run
/// stops only at the limit, at `position`, or at a pixel that differs.
pub proof fn lemma_run_matches(
    pixels: Seq<u8>,
    position: int,
    source: int,
    limit: int,
    count: int,
)
    ensures
        forall|i: int|
            count <= i < run_from(pixels, position, source, limit, count) ==> #[trigger] repeats(
                pixels,
                position,
                source,
                i,
            ),
        ({
            let run = run_from(pixels, position, source, limit, count);
            run >= limit || !repeats(pixels, position, source, run)
        }),
    decreases limit - count,
{
    if count < limit && source + count < position && pixels[position + count] == pixels[source
        + count] {
        lemma_run_matches(pixels, position, source, limit, count + 1);
        lemma_run_bounds(pixels, position, source, limit, count + 1);
    }
}

/// The length of a run lies between zero and the limit.
pub proof fn lemma_run_length_bounds(pixels: Seq<u8>, position: int, offset: int)
    ensures
        0 <= run_length(pixels, position, offset),
        run_length(pixels, position, offset) <= match_limit(pixels, position) || run_length(
            pixels,
            position,
            offset,
        ) == 0,
{
    lemma_run_bounds(
        pixels,
        position,
        window_origin(position) + offset,
        match_limit(pixels, position),
        0,
    );
}

/// The best match is the longest run among the offsets tried, at the
/// first offset that reaches that length: every run is at most as long,
/// and every run at an earlier offset is strictly shorter.
pub proof fn lemma_best_is_earliest_longest(pixels: Seq<u8>, position: int, tried: nat)
    ensures
        ({
            let best = best_upto(pixels, position, tried);
            &&& 0 <= best.1
            &&& best.1 <= match_limit(pixels, position) || best.1 == 0
            &&& 0 <= best.0
            &&& best.0 < tried || best.0 == 0
            &&& tried > 0 ==> run_length(pixels, position, best.0) == best.1
            &&& forall|o: int|
                0 <= o < tried ==> #[trigger] run_length(pixels, position, o) <= best.1
            &&& forall|o: int|
                0 <= o < best.0 ==> #[trigger] run_length(pixels, position, o) < best.1
        }),
    decreases tried,
{
    if tried > 0 {
        lemma_best_is_earliest_longest(pixels, position, (tried - 1) as nat);
        lemma_run_length_bounds(pixels, position, tried - 1);
        if tried == 1 {
            lemma_run_length_bounds(pixels, position, 0);
        }
    }
}

/// Once a run as long as the limit is found, no later offset replaces it.
pub proof fn lemma_best_saturated(pixels: Seq<u8>, position: int, found: nat, tried: nat)
    requires
        found <= tried,
        best_upto(pixels, position, found).1 >= match_limit(pixels, position),
    ensures
        best_upto(pixels, position, tried) == best_upto(pixels, position, found),
    decreases tried,
{
    if tried > found {
        lemma_best_saturated(pixels, position, found, (tried - 1) as nat);
        lemma_run_length_bounds(pixels, position, tried - 1);
        lemma_best_is_earliest_longest(pixels, position, found);
    }
}

/// Finds the best match at `position`: the longest run of pixels, at most
/// 130 long and wholly before `position`, that starts at one of the 510
/// offsets after the window origin and repeats at `position`; among runs
/// of that length, the one at the smallest offset. The length is zero
/// where nothing repeats.
pub fn find_match(pixels: &Vec<u8>, position: usize) -> (best: (usize, usize))
    ensures
        best.0 as int == best_match(pixels@, position as int).0,
        best.1 as int == best_match(pixels@, position as int).1,
        best.0 < 510,
        best.1 <= 130,
        best.1 == run_length(pixels@, position as int, best.0 as int),
        forall|o: int| 0 <= o < 510 ==> #[trigger] run_length(pixels@, position as int, o) <= best.1,
        forall|o: int|
            0 <= o < best.0 ==> #[trigger] run_length(pixels@, position as int, o) < best.1,
{
    let len = pixels.len();
    proof {
        lemma_best_is_earliest_longest(pixels@, position as int, 510);
    }
    if position == 0 || position >= len {
        proof {
            lemma_best_saturated(pixels@, position as int, 0, 510);
        }
        return (0, 0);
    }
    let origin: usize = if position > WINDOW_SIZE {
        position - WINDOW_SIZE
    } else {
        0
    };
    let ahead: usize = len - position;
    let cap: usize = if position < TOKEN_SIZE_MAX {
        position
    } else {
        TOKEN_SIZE_MAX
    };
    let limit: usize = if ahead < cap {
        ahead
    } else {
        cap
    };
    let mut best_offset: usize = 0;
    let mut best_length: usize = 0;
    let mut offset: usize = 0;
    let mut full: bool = false;
    while offset < OFFSET_COUNT && !full
        invariant
            len == pixels.len(),
            0 < position < len,
            origin as int == window_origin(position as int),
            limit as int == match_limit(pixels@, position as int),
            1 <= limit <= 130,
            offset <= 510,
            best_offset as int == best_upto(pixels@, position as int, offset as nat).0,
            best_length as int == best_upto(pixels@, position as int, offset as nat).1,
            full ==> best_length >= limit,
        decreases 510 - offset + if full { 0int } else { 1int },
    {
        let source: usize = origin + offset;
        let mut run: usize = 0;
        while run < limit && source + run < position && pixels[position + run] == pixels[source
            + run]
            invariant
                len == pixels.len(),
                0 < position < len,
                source == origin + offset,
                origin as int == window_origin(position as int),
                offset < 510,
                limit as int == match_limit(pixels@, position as int),
                limit <= 130,
                run <= limit,
                run_length(pixels@, position as int, offset as int) == run_from(
                    pixels@,
                    position as int,
                    source as int,
                    limit as int,
                    run as int,
                ),
            decreases limit - run,
        {
            run += 1;
        }
        if run > best_length {
            best_length = run;
            best_offset = offset;
        }
        if run >= limit {
            full = true;
        }
        offset += 1;
    }
    proof {
        if full {
            lemma_best_saturated(pixels@, position as int, offset as nat, 510);
        }
    }
    (best_offset, best_length)
}

} // verus!
