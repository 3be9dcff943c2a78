//! Loudness metering for UI feedback while a session is recording.
//!
//! The level of a window of samples is the root-mean-square of the
//! window, scaled by a fixed perceptual gain and clamped to full scale.
//! It is an approximation for a meter, not a calibrated measurement;
//! all arithmetic is exact integer arithmetic over fixed-point samples,
//! and the emitted value is a fraction of [`crate::FULL_SCALE`].
use vstd::prelude::*;
use vstd::arithmetic::div_mod::{
    lemma_div_is_ordered, lemma_div_multiples_vanish, lemma_div_pos_is_pos,
};
use crate::FULL_SCALE;

verus! {

/// Fixed gain applied to the root-mean-square before clamping. A tuned
/// constant for UI responsiveness, not derived from a physical model.
pub const LEVEL_GAIN: u32 = 25;

/// Sum of the squares of a window's samples.
pub open spec fn sum_squares(s: Seq<i32>) -> int
    decreases s.len(),
{
    if s.len() == 0 {
        0
    } else {
        sum_squares(s.drop_last()) + s.last() * s.last()
    }
}

/// Mean of the squares of a non-empty window's samples, rounded down.
pub open spec fn mean_square(s: Seq<i32>) -> int {
    sum_squares(s) / (s.len() as int)
}

/// Integer square root, rounded down.
pub open spec fn floor_sqrt(n: int) -> int
    decreases n,
{
    if n < 1 {
        0
    } else {
        let r: int = floor_sqrt(n - 1);
        if (r + 1) * (r + 1) <= n {
            r + 1
        } else {
            r
        }
    }
}

/// Loudness of a non-empty window: its root-mean-square, scaled by
/// `LEVEL_GAIN` and clamped to `FULL_SCALE` (that is, to 1.0).
pub open spec fn level_of(s: Seq<i32>) -> int {
    let rms: int = floor_sqrt(mean_square(s));
    if LEVEL_GAIN * rms > FULL_SCALE {
        FULL_SCALE as int
    } else {
        LEVEL_GAIN * rms
    }
}

/// `floor_sqrt(n)` really is the integer square root of `n`.
pub proof fn lemma_floor_sqrt(n: int)
    requires
        n >= 0,
    ensures
        floor_sqrt(n) >= 0,
        floor_sqrt(n) * floor_sqrt(n) <= n,
        n < (floor_sqrt(n) + 1) * (floor_sqrt(n) + 1),
    decreases n,
{
    if n == 0 {
    } else {
        lemma_floor_sqrt(n - 1);
        let r: int = floor_sqrt(n - 1);
        if (r + 1) * (r + 1) <= n {
            assert((r + 1) * (r + 1) < (r + 2) * (r + 2)) by (nonlinear_arith)
                requires
                    r >= 0,
            ;
        }
    }
}

/// No integer other than `floor_sqrt(n)` has the square-root property.
proof fn lemma_floor_sqrt_unique(n: int, r: int)
    requires
        n >= 0,
        r >= 0,
        r * r <= n,
        n < (r + 1) * (r + 1),
    ensures
        r == floor_sqrt(n),
{
    lemma_floor_sqrt(n);
    let f: int = floor_sqrt(n);
    if r < f {
        assert((r + 1) * (r + 1) <= f * f) by (nonlinear_arith)
            requires
                0 <= r + 1 <= f,
        ;
        assert(false);
    }
    if f < r {
        assert((f + 1) * (f + 1) <= r * r) by (nonlinear_arith)
            requires
                0 <= f + 1 <= r,
        ;
        assert(false);
    }
}

/// The sum of `n` squares lies between `0` and `n * 2^62`.
proof fn lemma_sum_squares_bounds(s: Seq<i32>)
    ensures
        0 <= sum_squares(s) <= s.len() * 0x4000_0000_0000_0000,
    decreases s.len(),
{
    if s.len() == 0 {
    } else {
        lemma_sum_squares_bounds(s.drop_last());
        let x: int = s.last() as int;
        assert(0 <= x * x <= 0x4000_0000_0000_0000int) by (nonlinear_arith)
            requires
                -0x8000_0000int <= x <= 0x7fff_ffffint,
        ;
        assert((s.len() - 1) * 0x4000_0000_0000_0000int + 0x4000_0000_0000_0000int == s.len()
            * 0x4000_0000_0000_0000int) by (nonlinear_arith);
    }
}

/// Every level value lies in `[0, FULL_SCALE]` — on the amplitude scale,
/// in `[0.0, 1.0]`.
pub proof fn lemma_level_in_range(s: Seq<i32>)
    requires
        s.len() > 0,
    ensures
        0 <= level_of(s) <= FULL_SCALE,
{
    lemma_sum_squares_bounds(s);
    lemma_div_pos_is_pos(sum_squares(s), s.len() as int);
    lemma_floor_sqrt(mean_square(s));
}

/// Integer square root: the greatest `r` with `r * r <= n`.
fn isqrt_u128(n: u128) -> (r: u128)
    ensures
        r * r <= n,
        n < (r + 1) * (r + 1),
        r <= 0x1_0000_0000_0000_0000,
{
    let mut lo: u128 = 0;
    // 2^64 squared exceeds every u128, so it is a safe upper bound.
    let mut hi: u128 = 0x1_0000_0000_0000_0000;
    proof {
        assert(0x1_0000_0000_0000_0000int * 0x1_0000_0000_0000_0000int > u128::MAX as int);
    }
    while lo + 1 < hi
        invariant
            lo < hi,
            hi <= 0x1_0000_0000_0000_0000,
            lo * lo <= n,
            n < hi * hi,
        decreases hi - lo,
    {
        let mid: u128 = lo + (hi - lo) / 2;
        proof {
            assert(lo < mid < hi);
            assert(mid * mid <= 0xffff_ffff_ffff_ffffint * 0xffff_ffff_ffff_ffffint)
                by (nonlinear_arith)
                requires
                    0 <= mid <= 0xffff_ffff_ffff_ffffint,
            ;
        }
        if mid * mid <= n {
            lo = mid;
        } else {
            hi = mid;
        }
    }
    proof {
        assert(hi * hi <= (lo + 1) * (lo + 1)) by (nonlinear_arith)
            requires
                0 <= hi <= lo + 1,
        ;
    }
    lo
}

/// Compute the level of a non-empty window of samples: root-mean-square,
/// scaled by `LEVEL_GAIN`, clamped to `FULL_SCALE`.
pub fn compute_level(window: &Vec<i32>) -> (level: u32)
    requires
        window@.len() > 0,
    ensures
        level as int == level_of(window@),
        level <= FULL_SCALE as u32,
{
    let len: usize = window.len();
    let mut acc: u128 = 0;
    let mut j: usize = 0;
    while j < len
        invariant
            len == window@.len(),
            j <= len,
            acc == sum_squares(window@.subrange(0, j as int)),
            acc <= j * 0x4000_0000_0000_0000,
        decreases len - j,
    {
        let s_j: i32 = window[j];
        proof {
            let prefix = window@.subrange(0, j as int);
            let extended = window@.subrange(0, j as int + 1);
            assert(extended.drop_last() =~= prefix);
            assert(extended.last() == window@[j as int]);
            assert(0 <= (s_j as int) * (s_j as int) <= 0x4000_0000_0000_0000int)
                by (nonlinear_arith)
                requires
                    -0x8000_0000int <= s_j as int <= 0x7fff_ffffint,
            ;
            assert((j + 1) * 0x4000_0000_0000_0000int == j * 0x4000_0000_0000_0000int
                + 0x4000_0000_0000_0000int) by (nonlinear_arith);
            assert(usize::MAX as int <= 0xffff_ffff_ffff_ffffint);
            assert(j * 0x4000_0000_0000_0000int <= 0x1_0000_0000_0000_0000int
                * 0x4000_0000_0000_0000int) by (nonlinear_arith)
                requires
                    0 <= j as int <= 0x1_0000_0000_0000_0000int,
            ;
        }
        let sq: i64 = (s_j as i64) * (s_j as i64);
        acc = acc + (sq as u128);
        j = j + 1;
    }
    proof {
        assert(window@.subrange(0, len as int) =~= window@);
        lemma_sum_squares_bounds(window@);
        // The mean of the squares is at most the largest possible square.
        lemma_div_is_ordered(acc as int, len as int * 0x4000_0000_0000_0000, len as int);
        lemma_div_multiples_vanish(0x4000_0000_0000_0000, len as int);
        lemma_div_pos_is_pos(acc as int, len as int);
    }
    let mean: u128 = acc / (len as u128);
    let rms: u128 = isqrt_u128(mean);
    proof {
        lemma_floor_sqrt_unique(mean as int, rms as int);
        // `rms * rms <= mean <= 2^62` pins `rms` under `2^31`.
        assert(rms as int <= 0x8000_0000int) by (nonlinear_arith)
            requires
                rms as int >= 0,
                (rms as int) * (rms as int) <= 0x4000_0000_0000_0000int,
        ;
    }
    let scaled: u64 = (LEVEL_GAIN as u64) * (rms as u64);
    let level: u32 = if scaled > FULL_SCALE as u64 {
        FULL_SCALE as u32
    } else {
        scaled as u32
    };
    level
}

} // verus!
