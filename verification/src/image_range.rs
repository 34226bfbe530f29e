use vstd::prelude::*;

verus! {

/// A half-open band of image rows `[from, to)` handed to one worker.
#[derive(Debug, Clone, Copy, PartialEq, Eq, Structural)]
pub struct ImageRange {
    pub from: u32,
    pub to: u32,
}

/// First row of band `t` when `height` rows are split among `num_thread` workers.
pub open spec fn band_from(num_thread: nat, height: nat, t: nat) -> nat
    recommends
        num_thread > 0,
{
    t * (height / num_thread)
}

/// One past the last row of band `t`: the last band takes every remaining row.
pub open spec fn band_to(num_thread: nat, height: nat, t: nat) -> nat
    recommends
        num_thread > 0,
{
    if t + 1 == num_thread {
        height
    } else {
        (t + 1) * (height / num_thread)
    }
}

proof fn lemma_band_bounds(num_thread: nat, height: nat, t: nat)
    requires
        num_thread > 0,
        t < num_thread,
    ensures
        band_from(num_thread, height, t) <= band_to(num_thread, height, t) <= height,
        (t + 1) * (height / num_thread) <= height,
{
    let q = height / num_thread;
    assert(q * num_thread <= height) by (nonlinear_arith)
        requires
            q == height / num_thread,
            num_thread > 0,
    ;
    assert((t + 1) * q <= height) by (nonlinear_arith)
        requires
            t + 1 <= num_thread,
            q * num_thread <= height,
    ;
    assert(t * q <= (t + 1) * q) by (nonlinear_arith);
}

/// Splits the rows `[0, height)` into `num_thread` consecutive bands, one per worker.
/// Every band but the last has `height / num_thread` rows; the last one also takes
/// the remainder.
pub fn create_image_ranges(num_thread: u32, height: u32) -> (ranges: Vec<ImageRange>)
    requires
        num_thread > 0,
    ensures
        ranges.len() == num_thread,
        forall|t: int|
            0 <= t < num_thread ==> {
                &&& #[trigger] ranges@[t].from == band_from(num_thread as nat, height as nat, t as nat)
                &&& ranges@[t].to == band_to(num_thread as nat, height as nat, t as nat)
            },
{
    let height_per_cpu = height / num_thread;
    let mut ranges: Vec<ImageRange> = Vec::with_capacity(num_thread as usize);
    let mut t: u32 = 0;
    while t < num_thread
        invariant
            t <= num_thread,
            num_thread > 0,
            height_per_cpu == height / num_thread,
            ranges.len() == t,
            forall|k: int|
                0 <= k < t ==> {
                    &&& #[trigger] ranges@[k].from == band_from(num_thread as nat, height as nat, k as nat)
                    &&& ranges@[k].to == band_to(num_thread as nat, height as nat, k as nat)
                },
        decreases num_thread - t,
    {
        proof {
            lemma_band_bounds(num_thread as nat, height as nat, t as nat);
        }
        let from = t * height_per_cpu;
        let to = if t + 1 == num_thread {
            height
        } else {
            (t + 1) * height_per_cpu
        };
        ranges.push(ImageRange { from, to });
        t = t + 1;
    }
    ranges
}

/// The bands returned by [`create_image_ranges`] tile the image: the first starts at
/// row 0, each one ends where the next begins, none is reversed, and the last ends
/// at `height`. So every row is rendered by exactly one worker.
pub proof fn image_ranges_tile_rows(num_thread: nat, height: nat)
    requires
        num_thread > 0,
    ensures
        band_from(num_thread, height, 0) == 0,
        band_to(num_thread, height, (num_thread - 1) as nat) == height,
        forall|t: nat|
            t < num_thread ==> band_from(num_thread, height, t) <= #[trigger] band_to(
                num_thread,
                height,
                t,
            ),
        forall|t: nat|
            t + 1 < num_thread ==> #[trigger] band_to(num_thread, height, t) == band_from(
                num_thread,
                height,
                t + 1,
            ),
{
    assert forall|t: nat| t < num_thread implies band_from(num_thread, height, t) <= #[trigger] band_to(
        num_thread,
        height,
        t,
    ) by {
        lemma_band_bounds(num_thread, height, t);
    }
}

/// Each row of the image lies in exactly one band.
pub proof fn image_ranges_row_in_one_band(num_thread: nat, height: nat, row: nat)
    requires
        num_thread > 0,
        row < height,
    ensures
        exists|t: nat|
            t < num_thread && #[trigger] band_from(num_thread, height, t) <= row < band_to(
                num_thread,
                height,
                t,
            ),
        forall|t1: nat, t2: nat|
            t1 < num_thread && t2 < num_thread && #[trigger] band_from(num_thread, height, t1) <= row
                < band_to(num_thread, height, t1) && #[trigger] band_from(num_thread, height, t2)
                <= row < band_to(num_thread, height, t2) ==> t1 == t2,
{
    let q = height / num_thread;
    let t = if q == 0 {
        (num_thread - 1) as nat
    } else {
        let c = row / q;
        if c < num_thread - 1 {
            c
        } else {
            (num_thread - 1) as nat
        }
    };
    assert(q * num_thread <= height) by (nonlinear_arith)
        requires
            q == height / num_thread,
            num_thread > 0,
    ;
    if q == 0 {
        assert(band_from(num_thread, height, t) == 0) by (nonlinear_arith)
            requires
                q == 0,
                band_from(num_thread, height, t) == t * q,
        ;
    } else {
        let c = row / q;
        assert(c * q <= row < (c + 1) * q) by (nonlinear_arith)
            requires
                c == row / q,
                q > 0,
        ;
        if c < num_thread - 1 {
            assert(band_from(num_thread, height, t) == c * q);
        } else {
            assert(t * q <= c * q) by (nonlinear_arith)
                requires
                    t <= c,
            ;
        }
    }
    assert(band_from(num_thread, height, t) <= row < band_to(num_thread, height, t));
    assert forall|t1: nat, t2: nat|
        t1 < num_thread && t2 < num_thread && #[trigger] band_from(num_thread, height, t1) <= row
            < band_to(num_thread, height, t1) && #[trigger] band_from(num_thread, height, t2) <= row
            < band_to(num_thread, height, t2) implies t1 == t2 by {
        if t1 < t2 {
            assert(band_to(num_thread, height, t1) <= band_from(num_thread, height, t2)) by {
                assert((t1 + 1) * q <= t2 * q) by (nonlinear_arith)
                    requires
                        t1 + 1 <= t2,
                ;
            }
        } else if t2 < t1 {
            assert(band_to(num_thread, height, t2) <= band_from(num_thread, height, t1)) by {
                assert((t2 + 1) * q <= t1 * q) by (nonlinear_arith)
                    requires
                        t2 + 1 <= t1,
                ;
            }
        }
    }
}

} // verus!
