//! Format conversion: downmix interleaved multi-channel audio to mono,
//! then resample it to the fixed rate the speech engine consumes.
//!
//! Downmixing partitions the interleaved buffer into frames of
//! `channels` consecutive samples (the last frame may be short) and
//! replaces each frame by its arithmetic mean. Resampling produces
//! `floor(len * to / from)` output samples by linear interpolation
//! between the two neighbouring source samples of each fractional
//! source position. All sample arithmetic is exact fixed-point integer
//! arithmetic; quotients round toward negative infinity.
use vstd::prelude::*;
use vstd::arithmetic::div_mod::{
    lemma_basic_div, lemma_div_is_ordered, lemma_div_multiples_vanish, lemma_div_pos_is_pos,
    lemma_fundamental_div_mod, lemma_fundamental_div_mod_converse_div, lemma_mod_bound,
    lemma_mod_multiples_basic,
};
use vstd::arithmetic::mul::lemma_mul_inequality;

verus! {

/// Sample rate (Hz) of the mono stream the speech engine consumes.
pub const WHISPER_SAMPLE_RATE: u32 = 16000;

/// Number of mono frames that downmixing an interleaved buffer of `len`
/// samples with `channels` channels produces: `ceil(len / channels)`.
pub open spec fn mono_len(len: int, channels: int) -> int {
    (len + channels - 1) / channels
}

/// End of the `i`-th interleaved frame: `channels` samples past its
/// start, truncated at the end of the buffer.
pub open spec fn frame_end(len: int, channels: int, i: int) -> int {
    if i * channels + channels <= len {
        i * channels + channels
    } else {
        len
    }
}

/// The `i`-th interleaved frame of the buffer.
pub open spec fn frame_of(s: Seq<i32>, channels: int, i: int) -> Seq<i32> {
    s.subrange(i * channels, frame_end(s.len() as int, channels, i))
}

/// Sum of a sequence of samples.
pub open spec fn sample_sum(s: Seq<i32>) -> int
    decreases s.len(),
{
    if s.len() == 0 {
        0
    } else {
        sample_sum(s.drop_last()) + s.last()
    }
}

/// Arithmetic mean of a non-empty frame, rounded toward negative
/// infinity.
pub open spec fn frame_mean(s: Seq<i32>) -> int {
    sample_sum(s) / (s.len() as int)
}

/// Downmix: every interleaved frame collapses to its mean.
pub open spec fn downmix(s: Seq<i32>, channels: int) -> Seq<i32> {
    Seq::new(mono_len(s.len() as int, channels) as nat, |i: int| frame_mean(frame_of(s, channels, i)) as i32)
}

/// The sum of `n` samples lies between `n * i32::MIN` and `n * i32::MAX`.
proof fn lemma_sample_sum_bounds(s: Seq<i32>)
    ensures
        s.len() * (i32::MIN as int) <= sample_sum(s) <= s.len() * (i32::MAX as int),
    decreases s.len(),
{
    if s.len() == 0 {
    } else {
        lemma_sample_sum_bounds(s.drop_last());
        assert((s.len() - 1) * (i32::MIN as int) + (i32::MIN as int) == s.len() * (i32::MIN as int))
            by (nonlinear_arith);
        assert((s.len() - 1) * (i32::MAX as int) + (i32::MAX as int) == s.len() * (i32::MAX as int))
            by (nonlinear_arith);
    }
}

/// The mean of a non-empty frame of `i32` samples is itself in `i32`
/// range.
proof fn lemma_frame_mean_in_range(s: Seq<i32>)
    requires
        s.len() > 0,
    ensures
        i32::MIN <= frame_mean(s) <= i32::MAX,
{
    let n: int = s.len() as int;
    lemma_sample_sum_bounds(s);
    lemma_div_multiples_vanish(i32::MIN as int, n);
    lemma_div_multiples_vanish(i32::MAX as int, n);
    assert(n * (i32::MIN as int) == s.len() * (i32::MIN as int));
    assert(n * (i32::MAX as int) == s.len() * (i32::MAX as int));
    lemma_div_is_ordered(n * (i32::MIN as int), sample_sum(s), n);
    lemma_div_is_ordered(sample_sum(s), n * (i32::MAX as int), n);
}

/// Downmix an interleaved buffer to mono: each frame of `channels`
/// consecutive samples (the last one possibly short) is replaced by its
/// arithmetic mean.
pub fn convert_to_mono(samples: &Vec<i32>, channels: usize) -> (mono: Vec<i32>)
    requires
        channels >= 1,
    ensures
        mono@ == downmix(samples@, channels as int),
        mono@.len() == mono_len(samples@.len() as int, channels as int),
        forall|i: int|
            0 <= i < mono@.len() ==> (#[trigger] mono@[i]) as int == frame_mean(
                frame_of(samples@, channels as int, i),
            ),
{
    let len: usize = samples.len();
    let ghost c: int = channels as int;
    let mut mono: Vec<i32> = Vec::new();
    let mut start: usize = 0;
    proof {
        assert(mono@.len() * c == 0) by (nonlinear_arith)
            requires
                mono@.len() == 0,
        ;
    }
    while start < len
        invariant
            channels >= 1,
            c == channels as int,
            len == samples@.len(),
            start == if mono@.len() * c <= len { mono@.len() * c } else { len as int },
            mono@.len() > 0 ==> (mono@.len() - 1) * c < len,
            mono@.len() == 0 ==> start == 0,
            forall|i: int|
                0 <= i < mono@.len() ==> (#[trigger] mono@[i]) as int == frame_mean(
                    frame_of(samples@, c, i),
                ),
        decreases len - start,
    {
        let ghost k: int = mono@.len() as int;
        proof {
            // Inside the loop `start < len`, so `start == k * c`.
            if k * c > len {
                assert(start == len as int);
                assert(false);
            }
        }
        let end: usize = if len - start > channels {
            start + channels
        } else {
            len
        };
        assert(end as int == frame_end(len as int, c, k));
        let mut acc: i128 = 0;
        let mut j: usize = start;
        while j < end
            invariant
                start <= j <= end,
                end <= len,
                len == samples@.len(),
                acc == sample_sum(samples@.subrange(start as int, j as int)),
                (j - start) * (i32::MIN as int) <= acc <= (j - start) * (i32::MAX as int),
            decreases end - j,
        {
            let s_j: i32 = samples[j];
            proof {
                let prefix = samples@.subrange(start as int, j as int);
                let extended = samples@.subrange(start as int, j as int + 1);
                assert(extended.drop_last() =~= prefix);
                assert(extended.last() == samples@[j as int]);
                assert(((j - start) + 1) * (i32::MIN as int) == (j - start) * (i32::MIN as int)
                    + (i32::MIN as int)) by (nonlinear_arith);
                assert(((j - start) + 1) * (i32::MAX as int) == (j - start) * (i32::MAX as int)
                    + (i32::MAX as int)) by (nonlinear_arith);
                // The running sum stays far inside the `i128` range.
                assert(usize::MAX as int <= 0xffff_ffff_ffff_ffffint);
                assert((j - start) * (i32::MIN as int) >= 0x1_0000_0000_0000_0000int * (
                i32::MIN as int)) by (nonlinear_arith)
                    requires
                        0 <= j - start <= 0x1_0000_0000_0000_0000int,
                ;
                assert((j - start) * (i32::MAX as int) <= 0x1_0000_0000_0000_0000int * (
                i32::MAX as int)) by (nonlinear_arith)
                    requires
                        0 <= j - start <= 0x1_0000_0000_0000_0000int,
                ;
            }
            acc = acc + s_j as i128;
            j = j + 1;
        }
        let flen: usize = end - start;
        let ghost frame = samples@.subrange(start as int, end as int);
        proof {
            assert(frame =~= frame_of(samples@, c, k));
            assert(sample_sum(frame) == acc);
            lemma_frame_mean_in_range(frame);
            let f: int = flen as int;
            lemma_div_multiples_vanish(i32::MIN as int, f);
            lemma_div_multiples_vanish(i32::MAX as int, f);
            lemma_div_is_ordered(f * (i32::MIN as int), acc as int, f);
            lemma_div_is_ordered(acc as int, f * (i32::MAX as int), f);
        }
        let mean_opt: Option<i128> = acc.checked_div_euclid(flen as i128);
        let mean: i128 = mean_opt.unwrap();
        assert(mean == frame_mean(frame_of(samples@, c, k)));
        mono.push(mean as i32);
        start = end;
        proof {
            assert(mono@.len() == k + 1);
            assert((mono@[k]) as int == frame_mean(frame_of(samples@, c, k)));
            assert((k + 1) * c == k * c + c) by (nonlinear_arith);
            if (k + 1) * c <= len {
                assert(end as int == k * c + c);
            } else {
                assert(end as int == len as int);
            }
            assert(k * c < len);
        }
    }
    proof {
        let k: int = mono@.len() as int;
        // At exit `start >= len`, hence `len <= k * c` and (for `k > 0`)
        // `(k - 1) * c < len`; together these pin `k == ceil(len / c)`.
        if k * c <= len {
            assert(start == k * c);
            assert(len as int <= k * c);
        }
        if k == 0 {
            assert(len as int == 0);
        }
        let r: int = len + c - 1 - k * c;
        assert(0 <= r < c) by (nonlinear_arith)
            requires
                c >= 1,
                r == len + c - 1 - k * c,
                len as int <= k * c,
                k == 0 ==> len as int == 0,
                k > 0 ==> (k - 1) * c < len,
        ;
        assert(len + c - 1 == k * c + r);
        lemma_fundamental_div_mod_converse_div(len + c - 1, c, k, r);
        assert(mono@.len() == mono_len(samples@.len() as int, c));
        assert forall|i: int| 0 <= i < mono@.len() implies mono@[i] == downmix(samples@, c)[i] by {
            assert((mono@[i]) as int == frame_mean(frame_of(samples@, c, i)));
        }
        assert(mono@ =~= downmix(samples@, c));
    }
    mono
}

/// Number of output samples when resampling `len` source samples from
/// `from` Hz to `to` Hz: `floor(len * to / from)`.
pub open spec fn resampled_len(len: int, from: int, to: int) -> int {
    len * to / from
}

/// Integer part of the fractional source position `i * from / to` of
/// output sample `i`.
pub open spec fn src_floor(i: int, from: int, to: int) -> int {
    i * from / to
}

/// Remainder of that division: the numerator of the interpolation
/// weight, over denominator `to`.
pub open spec fn src_rem(i: int, from: int, to: int) -> int {
    (i * from) % to
}

/// Linearly interpolated sample at output index `i`: a blend of the
/// source sample at the integer part of the source position and its
/// successor, the successor clamped to the last valid index.
pub open spec fn interpolated(s: Seq<i32>, from: int, to: int, i: int) -> int {
    let lo: int = src_floor(i, from, to);
    let hi: int = if lo + 1 < s.len() {
        lo + 1
    } else {
        s.len() - 1
    };
    s[lo] + (s[hi] - s[lo]) * src_rem(i, from, to) / to
}

/// Resample by linear interpolation.
pub open spec fn resampled(s: Seq<i32>, from: int, to: int) -> Seq<i32> {
    Seq::new(
        resampled_len(s.len() as int, from, to) as nat,
        |i: int| interpolated(s, from, to, i) as i32,
    )
}

/// The full conversion: downmix to mono if the source is multi-channel,
/// then resample if the source rate differs from `WHISPER_SAMPLE_RATE`.
pub open spec fn whisper_format(s: Seq<i32>, rate: int, channels: int) -> Seq<i32> {
    let mono: Seq<i32> = if channels > 1 {
        downmix(s, channels)
    } else {
        s
    };
    if rate != WHISPER_SAMPLE_RATE {
        resampled(mono, rate, WHISPER_SAMPLE_RATE as int)
    } else {
        mono
    }
}

/// The converted buffer fits in memory: its length formula stays within
/// `usize`. This can only fail when the target rate exceeds the source
/// rate on an enormous buffer.
pub open spec fn whisper_format_fits(len: int, rate: int, channels: int) -> bool {
    rate != WHISPER_SAMPLE_RATE ==> resampled_len(
        if channels > 1 {
            mono_len(len, channels)
        } else {
            len
        },
        rate,
        WHISPER_SAMPLE_RATE as int,
    ) <= usize::MAX
}

/// The interpolation blend `(b - a) * rem / to` lies between `0` and
/// `b - a`, so the interpolated value lies between the two source
/// samples.
proof fn lemma_blend_bounds(a: int, b: int, rem: int, to: int)
    requires
        0 <= rem < to,
    ensures
        b >= a ==> 0 <= (b - a) * rem / to <= b - a,
        b < a ==> b - a <= (b - a) * rem / to <= 0,
{
    let d: int = b - a;
    let p: int = d * rem;
    assert(d * to == to * d) by (nonlinear_arith);
    lemma_div_multiples_vanish(d, to);
    lemma_basic_div(0, to);
    if d >= 0 {
        assert(0 <= d * rem) by (nonlinear_arith)
            requires
                d >= 0,
                rem >= 0,
        ;
        assert(d * rem <= d * to) by (nonlinear_arith)
            requires
                d >= 0,
                rem <= to,
        ;
        lemma_div_pos_is_pos(p, to);
        lemma_div_is_ordered(p, d * to, to);
    } else {
        assert(d * rem <= 0) by (nonlinear_arith)
            requires
                d < 0,
                rem >= 0,
        ;
        assert(d * to <= d * rem) by (nonlinear_arith)
            requires
                d < 0,
                rem <= to,
        ;
        lemma_div_is_ordered(d * to, p, to);
        lemma_div_is_ordered(p, 0, to);
    }
}

/// Every output index of the resampler maps to a source index inside
/// the buffer.
proof fn lemma_src_index_in_bounds(i: int, len: int, from: int, to: int)
    requires
        from >= 1,
        to >= 1,
        len >= 0,
        0 <= i < resampled_len(len, from, to),
    ensures
        len >= 1,
        0 <= src_floor(i, from, to) < len,
        0 <= src_rem(i, from, to) < to,
{
    let q: int = len * to / from;
    lemma_fundamental_div_mod(len * to, from);
    lemma_mod_bound(len * to, from);
    lemma_mul_inequality(i + 1, q, from);
    assert(q * from == from * q) by (nonlinear_arith);
    assert((i + 1) * from == i * from + from) by (nonlinear_arith);
    assert(i * from >= 0) by (nonlinear_arith)
        requires
            i >= 0,
            from >= 0,
    ;
    // `i * from < len * to`, hence `len * to > 0`, hence `len >= 1`.
    assert(len >= 1) by (nonlinear_arith)
        requires
            to >= 1,
            len >= 0,
            len * to >= 1,
    ;
    lemma_div_is_ordered(i * from, len * to - 1, to);
    assert((len - 1) * to + (to - 1) == len * to - 1) by (nonlinear_arith);
    lemma_fundamental_div_mod_converse_div(len * to - 1, to, len - 1, to - 1);
    lemma_div_pos_is_pos(i * from, to);
    lemma_mod_bound(i * from, to);
}

/// Resample a mono buffer from `from_rate` Hz to `to_rate` Hz by linear
/// interpolation. The output has exactly
/// `floor(len * to_rate / from_rate)` samples; a degenerate (empty or
/// one-sample) input never indexes out of bounds because the upper
/// interpolation neighbour is clamped to the last valid index.
pub fn resample(samples: &Vec<i32>, from_rate: u32, to_rate: u32) -> (out: Vec<i32>)
    requires
        from_rate >= 1,
        to_rate >= 1,
        resampled_len(samples@.len() as int, from_rate as int, to_rate as int) <= usize::MAX,
    ensures
        out@ == resampled(samples@, from_rate as int, to_rate as int),
        out@.len() == resampled_len(samples@.len() as int, from_rate as int, to_rate as int),
{
    let len: usize = samples.len();
    let ghost from: int = from_rate as int;
    let ghost to: int = to_rate as int;
    proof {
        assert(usize::MAX as int <= 0xffff_ffff_ffff_ffffint);
        assert(len as int * to <= 0xffff_ffff_ffff_ffffint * 0xffff_ffffint) by (nonlinear_arith)
            requires
                0 <= len as int <= 0xffff_ffff_ffff_ffffint,
                0 <= to <= 0xffff_ffffint,
        ;
        assert(len as int * to >= 0) by (nonlinear_arith)
            requires
                len as int >= 0,
                to >= 0,
        ;
    }
    let prod: u128 = (len as u128) * (to_rate as u128);
    let new_len_wide: u128 = prod / (from_rate as u128);
    let new_len: usize = new_len_wide as usize;
    let mut out: Vec<i32> = Vec::new();
    let mut i: usize = 0;
    while i < new_len
        invariant
            len == samples@.len(),
            from == from_rate as int,
            to == to_rate as int,
            from_rate >= 1,
            to_rate >= 1,
            new_len as int == resampled_len(len as int, from, to),
            out@.len() == i,
            i <= new_len,
            forall|j: int|
                0 <= j < i ==> (#[trigger] out@[j]) as int == interpolated(samples@, from, to, j),
        decreases new_len - i,
    {
        proof {
            lemma_src_index_in_bounds(i as int, len as int, from, to);
            assert(i as int * from <= 0xffff_ffff_ffff_ffffint * 0xffff_ffffint)
                by (nonlinear_arith)
                requires
                    0 <= i as int <= 0xffff_ffff_ffff_ffffint,
                    0 <= from <= 0xffff_ffffint,
            ;
            assert(i as int * from >= 0) by (nonlinear_arith)
                requires
                    i as int >= 0,
                    from >= 0,
            ;
        }
        let pos: u128 = (i as u128) * (from_rate as u128);
        let lo_wide: u128 = pos / (to_rate as u128);
        let rem_wide: u128 = pos % (to_rate as u128);
        assert(lo_wide as int == src_floor(i as int, from, to));
        assert(rem_wide as int == src_rem(i as int, from, to));
        let lo: usize = lo_wide as usize;
        let hi: usize = if lo + 1 < len {
            lo + 1
        } else {
            len - 1
        };
        let a: i32 = samples[lo];
        let b: i32 = samples[hi];
        let diff: i128 = b as i128 - a as i128;
        proof {
            assert(diff * (rem_wide as int) <= 0x1_0000_0000int * 0x1_0000_0000int
                && diff * (rem_wide as int) >= -(0x1_0000_0000int * 0x1_0000_0000int))
                by (nonlinear_arith)
                requires
                    -0x1_0000_0000int <= diff <= 0x1_0000_0000int,
                    0 <= rem_wide as int <= 0x1_0000_0000int,
            ;
            lemma_blend_bounds(a as int, b as int, rem_wide as int, to);
        }
        let prod_i: i128 = diff * (rem_wide as i128);
        let blend: i128 = prod_i.checked_div_euclid(to_rate as i128).unwrap();
        let val_wide: i128 = a as i128 + blend;
        let val: i32 = val_wide as i32;
        assert(val as int == interpolated(samples@, from, to, i as int));
        out.push(val);
        i = i + 1;
    }
    proof {
        assert forall|j: int| 0 <= j < out@.len() implies out@[j] == resampled(
            samples@,
            from,
            to,
        )[j] by {
            assert((out@[j]) as int == interpolated(samples@, from, to, j));
        }
        assert(out@ =~= resampled(samples@, from, to));
    }
    out
}

/// Convert captured interleaved audio into the format the speech engine
/// consumes: mono samples at `WHISPER_SAMPLE_RATE` Hz. Downmixing always
/// happens before resampling.
pub fn convert_to_whisper_format(
    samples: Vec<i32>,
    source_sample_rate: u32,
    source_channels: u16,
) -> (out: Vec<i32>)
    requires
        source_sample_rate >= 1,
        source_channels >= 1,
        whisper_format_fits(
            samples@.len() as int,
            source_sample_rate as int,
            source_channels as int,
        ),
    ensures
        out@ == whisper_format(samples@, source_sample_rate as int, source_channels as int),
{
    let mono: Vec<i32> = if source_channels > 1 {
        convert_to_mono(&samples, source_channels as usize)
    } else {
        samples
    };
    if source_sample_rate != WHISPER_SAMPLE_RATE {
        resample(&mono, source_sample_rate, WHISPER_SAMPLE_RATE)
    } else {
        mono
    }
}

/// Resampling with equal source and target rates leaves the buffer
/// unchanged.
pub proof fn lemma_resample_same_rate(s: Seq<i32>, rate: int)
    requires
        rate >= 1,
    ensures
        resampled(s, rate, rate) == s,
{
    let len: int = s.len() as int;
    lemma_div_multiples_vanish(len, rate);
    assert(len * rate == rate * len) by (nonlinear_arith);
    assert(resampled_len(len, rate, rate) == len);
    assert forall|i: int| 0 <= i < len implies resampled(s, rate, rate)[i] == s[i] by {
        lemma_div_multiples_vanish(i, rate);
        assert(i * rate == rate * i) by (nonlinear_arith);
        lemma_mod_multiples_basic(i, rate);
        assert(src_floor(i, rate, rate) == i);
        assert(src_rem(i, rate, rate) == 0);
        let hi: int = if i + 1 < len {
            i + 1
        } else {
            len - 1
        };
        assert((s[hi] - s[i]) * 0 == 0) by (nonlinear_arith);
        lemma_basic_div(0, rate);
        assert(interpolated(s, rate, rate, i) == s[i]);
    }
    assert(resampled(s, rate, rate) =~= s);
}

/// The sum of a constant sequence is its length times the constant.
proof fn lemma_constant_sum(s: Seq<i32>, v: i32)
    requires
        forall|i: int| 0 <= i < s.len() ==> s[i] == v,
    ensures
        sample_sum(s) == s.len() * (v as int),
    decreases s.len(),
{
    if s.len() == 0 {
    } else {
        assert(forall|i: int| 0 <= i < s.drop_last().len() ==> s.drop_last()[i] == v);
        lemma_constant_sum(s.drop_last(), v);
        assert((s.len() - 1) * (v as int) + (v as int) == s.len() * (v as int))
            by (nonlinear_arith);
    }
}

/// Downmixing a constant buffer keeps the constant: the mean of equal
/// samples is that sample, whatever the channel count.
pub proof fn lemma_downmix_constant(s: Seq<i32>, channels: int, v: i32)
    requires
        channels >= 1,
        forall|i: int| 0 <= i < s.len() ==> s[i] == v,
    ensures
        forall|i: int|
            0 <= i < downmix(s, channels).len() ==> #[trigger] downmix(s, channels)[i] == v,
{
    let len: int = s.len() as int;
    assert forall|i: int| 0 <= i < downmix(s, channels).len() implies #[trigger] downmix(
        s,
        channels,
    )[i] == v by {
        // The `i`-th frame starts inside the buffer, so it is non-empty.
        let q: int = (len + channels - 1) / channels;
        lemma_fundamental_div_mod(len + channels - 1, channels);
        lemma_mod_bound(len + channels - 1, channels);
        lemma_mul_inequality(i + 1, q, channels);
        assert(channels * q == q * channels) by (nonlinear_arith);
        assert((i + 1) * channels == i * channels + channels) by (nonlinear_arith);
        let frame = frame_of(s, channels, i);
        assert(i * channels < len);
        assert(frame.len() > 0);
        assert(forall|j: int| 0 <= j < frame.len() ==> frame[j] == v);
        lemma_constant_sum(frame, v);
        lemma_div_multiples_vanish(v as int, frame.len() as int);
        assert((frame.len() as int) * (v as int) == frame.len() * (v as int));
    }
}

/// Resampling a constant buffer keeps the constant: interpolation
/// between equal neighbours changes nothing.
pub proof fn lemma_resample_constant(s: Seq<i32>, from: int, to: int, v: i32)
    requires
        from >= 1,
        to >= 1,
        forall|i: int| 0 <= i < s.len() ==> s[i] == v,
    ensures
        forall|i: int|
            0 <= i < resampled(s, from, to).len() ==> #[trigger] resampled(s, from, to)[i] == v,
{
    assert forall|i: int| 0 <= i < resampled(s, from, to).len() implies #[trigger] resampled(
        s,
        from,
        to,
    )[i] == v by {
        lemma_src_index_in_bounds(i, s.len() as int, from, to);
        let lo: int = src_floor(i, from, to);
        let hi: int = if lo + 1 < s.len() {
            lo + 1
        } else {
            s.len() - 1
        };
        assert(s[lo] == v && s[hi] == v);
        assert((s[hi] - s[lo]) * src_rem(i, from, to) == 0) by (nonlinear_arith)
            requires
                s[hi] == s[lo],
        ;
        lemma_basic_div(0, to);
        assert(interpolated(s, from, to, i) == v);
    }
}

/// The full conversion preserves a constant signal: a buffer holding
/// one repeated amplitude converts to that amplitude at every output
/// index, exactly.
pub proof fn lemma_whisper_format_constant(s: Seq<i32>, rate: int, channels: int, v: i32)
    requires
        rate >= 1,
        channels >= 1,
        forall|i: int| 0 <= i < s.len() ==> s[i] == v,
    ensures
        forall|i: int|
            0 <= i < whisper_format(s, rate, channels).len() ==> #[trigger] whisper_format(
                s,
                rate,
                channels,
            )[i] == v,
{
    let mono: Seq<i32> = if channels > 1 {
        downmix(s, channels)
    } else {
        s
    };
    if channels > 1 {
        lemma_downmix_constant(s, channels, v);
    }
    assert(forall|i: int| 0 <= i < mono.len() ==> mono[i] == v);
    if rate != WHISPER_SAMPLE_RATE {
        lemma_resample_constant(mono, rate, WHISPER_SAMPLE_RATE as int, v);
    }
}

/// Resampling a one-sample buffer yields that sample at every output
/// index, whatever the two rates are.
pub proof fn lemma_resample_single(s: Seq<i32>, from: int, to: int)
    requires
        s.len() == 1,
        from >= 1,
        to >= 1,
    ensures
        forall|i: int|
            0 <= i < resampled(s, from, to).len() ==> #[trigger] resampled(s, from, to)[i] == s[0],
{
    assert forall|i: int| 0 <= i < resampled(s, from, to).len() implies #[trigger] resampled(
        s,
        from,
        to,
    )[i] == s[0] by {
        lemma_src_index_in_bounds(i, 1, from, to);
        assert(src_floor(i, from, to) == 0);
        assert((s[0] - s[0]) * src_rem(i, from, to) == 0) by (nonlinear_arith);
        lemma_basic_div(0, to);
        assert(interpolated(s, from, to, i) == s[0]);
    }
}

} // verus!
