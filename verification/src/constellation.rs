//! Constellation extraction: overlapping windowed spectral analysis of the
//! conditioned mono signal, and per-chunk peak picking.
//!
//! Each analysis chunk holds `CHUNK_SIZE` samples and chunks overlap by 50%.
//! A chunk is Hamming-windowed, transformed by a complex FFT, and reduced to
//! its per-bin magnitudes; strict 5-bin local maxima inside the 20 Hz - 5 kHz
//! passband survive, normalized against the chunk's maximum magnitude, and
//! the top four by magnitude become the chunk's constellation points.
//!
//! Units: times in milliseconds, frequencies in centi-hertz, magnitudes in
//! hundredths of the chunk-normalized 0-100 scale. The Hamming window is held
//! in units of 1/10000, with the cosine computed by exact decimal arithmetic
//! and truncated.

use vstd::prelude::*;

use rust_decimal::MathematicalOps;
use rust_decimal::prelude::ToPrimitive;

use crate::conditioner::BandpassFilterMonoSource;
use crate::numeric::div_trunc;
use crate::sorting::{sort_points_desc, sort_points_desc_spec};

verus! {

use vstd::arithmetic::div_mod::{
    lemma_div_is_ordered,
    lemma_div_nonincreasing,
    lemma_div_pos_is_pos,
    lemma_multiply_divide_le,
    lemma_fundamental_div_mod_converse,
};
use vstd::arithmetic::mul::lemma_mul_inequality;

/// Samples per analysis window, fixed for the conditioned mono stream:
/// an 8192-byte chunk budget over 2-byte mono samples.
pub const CHUNK_SIZE: usize = 4096;

/// Samples between consecutive chunk starts: 50% overlap.
pub const STEP_SIZE: usize = 2048;

/// One spectral peak surviving peak-picking within one analysis chunk.
///
/// `time` is the start time of the chunk's non-overlapping step in
/// milliseconds; `frequency` is in centi-hertz; `magnitude` is normalized
/// against the chunk's maximum, in hundredths (so `0..=10000` stands for the
/// 0-100 scale).
#[derive(Debug, Clone, Copy, PartialEq, Eq, Structural)]
pub struct ConstellationPoint {
    pub time: u64,
    pub frequency: u64,
    pub magnitude: u64,
}

impl ConstellationPoint {
    /// A point the extractor may emit: magnitude within the normalized scale,
    /// frequency within the 20 Hz - 5 kHz passband.
    pub open spec fn wf(self) -> bool {
        self.magnitude <= 10000 && 2000 <= self.frequency <= 500000
    }
}

/// The cosine of `x` microradians, in units of 1/10000, truncated toward
/// zero. Named for the result of `rust_decimal`'s `cos`, which computes a
/// Taylor series in exact software decimal arithmetic and so depends on its
/// argument alone.
pub uninterp spec fn cos_q4(x_urad: int) -> int;

/// Relies on rust_decimal's `MathematicalOps::cos`: the cosine of the angle,
/// a pure function of its argument computed in software decimal arithmetic,
/// here scaled to units of 1/10000 and truncated. Its magnitude never
/// exceeds one, so the scaled result stays within `-10000..=10000`.
#[verifier::external_body]
fn cos_fixed(x_urad: i64) -> (r: i64)
    requires
        0 <= x_urad <= 6_283_185,
    ensures
        r == cos_q4(x_urad as int),
        -10000 <= r <= 10000,
{
    let x = rust_decimal::Decimal::new(x_urad, 6);
    let scaled = x.cos() * rust_decimal::Decimal::new(10_000, 0);
    scaled.trunc().to_i64().unwrap_or(0)
}

/// Relies on rustfft's `FftPlanner::plan_fft_forward` / `Fft::process` and
/// num_complex's `Complex::norm` (through rustfft's re-export): the forward
/// FFT of the samples, each output bin reduced to its magnitude and truncated
/// to an integer. Samples enter the transform through rust_decimal's
/// single-precision cast. The transform runs in single-precision floats and
/// rustfft picks its algorithm by processor features, so beyond the preserved
/// length nothing is stated of the values.
#[verifier::external_body]
fn fft_magnitudes(samples: &Vec<i64>) -> (r: Vec<u64>)
    ensures
        r@.len() == samples@.len(),
{
    let mut planner = rustfft::FftPlanner::new();
    let fft = planner.plan_fft_forward(samples.len());
    let mut buffer: Vec<rustfft::num_complex::Complex<_>> = samples
        .iter()
        .map(|&s| rustfft::num_complex::Complex::from(
            rust_decimal::Decimal::from(s).to_f32().unwrap_or_default(),
        ))
        .collect();
    fft.process(&mut buffer);
    buffer.iter().map(|c| c.norm() as u64).collect()
}

/// The angle `2 * pi * i / (n - 1)` in microradians, truncated.
pub open spec fn angle_urad(i: int, n: int) -> int
    recommends
        0 <= i < n,
        n >= 2,
{
    6_283_185 * i / (n - 1)
}

/// The Hamming window coefficient `0.54 - 0.46 * cos(2 * pi * i / (n - 1))`
/// in units of 1/10000.
pub open spec fn hamming_q4(i: int, n: int) -> int {
    5400 - div_trunc(46 * cos_q4(angle_urad(i, n)), 100)
}

/// Builds the `n`-sample Hamming window in units of 1/10000.
pub fn hamming_window(n: usize) -> (w: Vec<i64>)
    requires
        2 <= n <= 8192,
    ensures
        w@.len() == n,
        forall|i: int| 0 <= i < n ==> w@[i] == hamming_q4(i, n as int) && 0 <= #[trigger] w@[i]
            <= 10000,
{
    let mut w: Vec<i64> = Vec::new();
    let mut i: usize = 0;
    while i < n
        invariant
            2 <= n <= 8192,
            i <= n,
            w@.len() == i,
            forall|k: int| 0 <= k < i ==> w@[k] == hamming_q4(k, n as int) && 0 <= #[trigger] w@[k]
                <= 10000,
        decreases n - i,
    {
        let angle = (6_283_185u64 * i as u64 / (n as u64 - 1)) as i64;
        proof {
            lemma_mul_inequality(i as int, n as int - 1, 6_283_185);
            vstd::arithmetic::mul::lemma_mul_is_commutative(i as int, 6_283_185);
            lemma_multiply_divide_le(6_283_185 * i as int, n as int - 1, 6_283_185);
            lemma_div_pos_is_pos(6_283_185 * i as int, n as int - 1);
        }
        let c = cos_fixed(angle);
        let scaled = crate::numeric::mul_div_trunc(c, 46, 100);
        proof {
            crate::numeric::lemma_div_trunc_bound(46 * c, 100, 460000);
        }
        w.push(5400 - scaled);
        i = i + 1;
    }
    w
}

/// The windowed chunk: each sample scaled by its window coefficient, the
/// product truncated back to integer units.
pub open spec fn spec_windowed(s: Seq<i16>, start: int, w: Seq<i64>, i: int) -> int {
    div_trunc(s[start + i] * w[i], 10000)
}

/// Multiplies the Hamming window element-wise into the chunk that starts at
/// `start`.
pub fn apply_hamming_window(samples: &Vec<i16>, start: usize, window: &Vec<i64>) -> (r: Vec<i64>)
    requires
        start + window@.len() <= samples@.len(),
        forall|i: int| 0 <= i < window@.len() ==> 0 <= #[trigger] window@[i] <= 10000,
    ensures
        r@.len() == window@.len(),
        forall|i: int| 0 <= i < r@.len() ==> r@[i] == spec_windowed(
            samples@,
            start as int,
            window@,
            i,
        ),
{
    let mut r: Vec<i64> = Vec::new();
    let mut i: usize = 0;
    let n = window.len();
    let total = samples.len();
    while i < n
        invariant
            n == window@.len(),
            total == samples@.len(),
            start + n <= total,
            i <= n,
            r@.len() == i,
            forall|k: int| 0 <= k < n ==> 0 <= #[trigger] window@[k] <= 10000,
            forall|k: int| 0 <= k < i ==> r@[k] == spec_windowed(
                samples@,
                start as int,
                window@,
                k,
            ),
        decreases n - i,
    {
        let wi = window[i];
        if wi == 0 {
            proof {
                assert(samples@[start + i] * window@[i as int] == 0);
                assert(spec_windowed(samples@, start as int, window@, i as int) == 0);
            }
            r.push(0);
        } else {
            let v = crate::numeric::mul_div_trunc(samples[start + i] as i64, wi as u64, 10000);
            proof {
                assert(v == spec_windowed(samples@, start as int, window@, i as int));
            }
            r.push(v);
        }
        i = i + 1;
    }
    r
}

/// The largest magnitude among the first `k` bins (zero for an empty prefix).
pub open spec fn max_prefix(s: Seq<u64>, k: int) -> int
    decreases k,
{
    if k <= 0 {
        0
    } else {
        let m = max_prefix(s, k - 1);
        if s[k - 1] > m {
            s[k - 1] as int
        } else {
            m
        }
    }
}

/// The chunk's maximum magnitude, zero for an empty chunk.
pub open spec fn chunk_max(s: Seq<u64>) -> int {
    max_prefix(s, s.len() as int)
}

/// Every bin of the prefix stays at or below the prefix maximum.
pub proof fn lemma_max_prefix_ge(s: Seq<u64>, k: int, i: int)
    requires
        0 <= i < k <= s.len(),
    ensures
        s[i] <= max_prefix(s, k),
        max_prefix(s, k) >= 0,
    decreases k,
{
    if i < k - 1 {
        lemma_max_prefix_ge(s, k - 1, i);
    }
}

/// Bin `b` is a strict 5-bin local maximum: two strictly rising bins into it,
/// two strictly falling bins out of it. Plateaus do not qualify.
pub open spec fn is_peak_bin(s: Seq<u64>, b: int) -> bool {
    &&& 2 <= b
    &&& b + 2 < s.len()
    &&& s[b - 2] < s[b - 1] < s[b]
    &&& s[b] > s[b + 1] > s[b + 2]
}

/// The frequency of bin `b` in centi-hertz: `b * (rate / n)` scaled, with the
/// quotient truncated.
pub open spec fn bin_freq_chz(b: int, rate: int, n: int) -> int {
    b * rate * 100 / n
}

/// A frequency (centi-hertz) within the 20 Hz - 5 kHz passband.
pub open spec fn in_band(f: int) -> bool {
    2000 <= f <= 500000
}

/// A magnitude normalized against the chunk maximum, in hundredths of the
/// 0-100 scale; a chunk whose maximum is zero normalizes everything to zero.
pub open spec fn norm_mag(m: int, mx: int) -> int {
    if mx <= 0 {
        0
    } else {
        m * 10000 / mx
    }
}

/// Normalization stays on the 0-100 scale, and the chunk maximum itself
/// normalizes to exactly 100.
pub proof fn lemma_norm_mag_bounds(m: int, mx: int)
    requires
        0 <= m <= mx,
        0 < mx,
    ensures
        0 <= norm_mag(m, mx) <= 10000,
        norm_mag(mx, mx) == 10000,
{
    lemma_mul_inequality(m, mx, 10000);
    vstd::arithmetic::mul::lemma_mul_is_commutative(m, 10000);
    vstd::arithmetic::mul::lemma_mul_is_commutative(mx, 10000);
    lemma_multiply_divide_le(m * 10000, mx, 10000);
    lemma_div_pos_is_pos(m * 10000, mx);
    vstd::arithmetic::div_mod::lemma_div_multiples_vanish(10000, mx);
}

/// The candidate peaks from bin `b` on, in bin order: strict local maxima
/// whose frequency lies in the passband, each normalized against the chunk
/// maximum `mx` and stamped with the chunk time `t_ms`.
pub open spec fn candidates_from(s: Seq<u64>, rate: int, t_ms: int, mx: int, b: int) -> Seq<
    ConstellationPoint,
>
    decreases s.len() - b,
{
    if b + 2 >= s.len() || b < 2 {
        Seq::empty()
    } else {
        let rest = candidates_from(s, rate, t_ms, mx, b + 1);
        if is_peak_bin(s, b) && in_band(bin_freq_chz(b, rate, s.len() as int)) {
            seq![
                ConstellationPoint {
                    time: t_ms as u64,
                    frequency: bin_freq_chz(b, rate, s.len() as int) as u64,
                    magnitude: norm_mag(s[b] as int, mx) as u64,
                },
            ] + rest
        } else {
            rest
        }
    }
}

/// The chunk's constellation points: its candidate peaks sorted by magnitude
/// descending (stable) and cut to the strongest four.
pub open spec fn spec_significant_peaks(s: Seq<u64>, rate: int, t_ms: int) -> Seq<
    ConstellationPoint,
> {
    let sorted = sort_points_desc_spec(candidates_from(s, rate, t_ms, chunk_max(s), 2));
    if sorted.len() <= 4 {
        sorted
    } else {
        sorted.subrange(0, 4)
    }
}

/// The start time of chunk `idx` in milliseconds: `idx * step / rate`
/// seconds, scaled and truncated.
pub open spec fn chunk_time_ms(idx: int, step: int, rate: int) -> int {
    idx * step * 1000 / rate
}

/// The spectrum rises strictly into bin `k` and falls strictly after it: a
/// single wide bump.
pub open spec fn single_bump(s: Seq<u64>, k: int) -> bool {
    &&& (forall|i: int| 0 <= i < k ==> #[trigger] s[i] < s[i + 1])
    &&& (forall|i: int| k <= i < s.len() - 1 ==> #[trigger] s[i] > s[i + 1])
}

/// On the rising flank, earlier bins stay at or below later ones.
proof fn lemma_bump_rising(s: Seq<u64>, k: int, a: int, b: int)
    requires
        single_bump(s, k),
        k < s.len(),
        0 <= a <= b <= k,
    ensures
        s[a] <= s[b],
    decreases b - a,
{
    if a < b {
        lemma_bump_rising(s, k, a + 1, b);
    }
}

/// On the falling flank, later bins stay at or below earlier ones.
proof fn lemma_bump_falling(s: Seq<u64>, k: int, a: int, b: int)
    requires
        single_bump(s, k),
        k <= a <= b < s.len(),
    ensures
        s[b] <= s[a],
    decreases b - a,
{
    if a < b {
        lemma_bump_falling(s, k, a + 1, b);
    }
}

/// Under a single bump the running maximum tracks the rising flank and then
/// holds the bump's value.
proof fn lemma_bump_max(s: Seq<u64>, k: int, j: int)
    requires
        single_bump(s, k),
        0 <= k < s.len(),
        0 < j <= s.len(),
    ensures
        max_prefix(s, j) == if j - 1 <= k {
            s[j - 1] as int
        } else {
            s[k] as int
        },
    decreases j,
{
    if j == 1 {
        assert(max_prefix(s, 0) == 0);
    } else {
        lemma_bump_max(s, k, j - 1);
        if j - 1 <= k {
            assert(s[j - 2] < s[j - 2 + 1]);
        } else if j - 2 == k {
            assert(s[k] > s[k + 1]);
        } else {
            lemma_bump_falling(s, k, k + 1, j - 1);
            assert(s[k] > s[k + 1]);
        }
    }
}

/// Under a single bump, the only candidate from bin `b` on is the bump
/// itself, reached iff `b` has not yet passed it.
proof fn lemma_bump_candidates(s: Seq<u64>, k: int, rate: int, t_ms: int, b: int)
    requires
        single_bump(s, k),
        2 <= k,
        k + 2 < s.len(),
        in_band(bin_freq_chz(k, rate, s.len() as int)),
        2 <= b,
    ensures
        candidates_from(s, rate, t_ms, s[k] as int, b) == if b <= k {
            seq![
                ConstellationPoint {
                    time: t_ms as u64,
                    frequency: bin_freq_chz(k, rate, s.len() as int) as u64,
                    magnitude: 10000u64,
                },
            ]
        } else {
            Seq::<ConstellationPoint>::empty()
        },
    decreases s.len() - b,
{
    if b + 2 >= s.len() {
        assert(b > k);
    } else {
        lemma_bump_candidates(s, k, rate, t_ms, b + 1);
        if b < k {
            assert(s[b] < s[b + 1]);
            assert(!is_peak_bin(s, b));
        } else if b == k {
            assert(is_peak_bin(s, b));
            assert(s[k] > 0) by {
                lemma_bump_rising(s, k, 1, k);
            }
            lemma_norm_mag_bounds(s[k] as int, s[k] as int);
            assert(norm_mag(s[b] as int, s[k] as int) == 10000);
        } else {
            assert(s[b - 1] > s[b]);
            assert(!is_peak_bin(s, b));
        }
    }
}

/// A chunk holding a single wide bump - strictly rising into bin `k`,
/// strictly falling after it, with `k`'s frequency inside the passband -
/// yields exactly one constellation point: at the bump's bin, with magnitude
/// exactly 100.
pub proof fn lemma_single_bump_peak(s: Seq<u64>, k: int, rate: int, t_ms: int)
    requires
        single_bump(s, k),
        2 <= k,
        k + 2 < s.len(),
        in_band(bin_freq_chz(k, rate, s.len() as int)),
    ensures
        spec_significant_peaks(s, rate, t_ms) == seq![
            ConstellationPoint {
                time: t_ms as u64,
                frequency: bin_freq_chz(k, rate, s.len() as int) as u64,
                magnitude: 10000u64,
            },
        ],
{
    lemma_bump_max(s, k, s.len() as int);
    assert(chunk_max(s) == s[k] as int);
    lemma_bump_candidates(s, k, rate, t_ms, 2);
    let pt = ConstellationPoint {
        time: t_ms as u64,
        frequency: bin_freq_chz(k, rate, s.len() as int) as u64,
        magnitude: 10000u64,
    };
    let single = seq![pt];
    assert(candidates_from(s, rate, t_ms, chunk_max(s), 2) == single);
    assert(single.drop_first() =~= Seq::<ConstellationPoint>::empty());
    assert(sort_points_desc_spec(Seq::<ConstellationPoint>::empty())
        == Seq::<ConstellationPoint>::empty());
    assert(single[0] == pt);
    assert(crate::sorting::insert_desc(pt, Seq::empty()) =~= single);
    assert(sort_points_desc_spec(single) =~= single);
    assert(spec_significant_peaks(s, rate, t_ms) =~= single);
}

/// Extracts a chunk's constellation points from its magnitude spectrum:
/// strict 5-bin local maxima within the passband, normalized against the
/// chunk maximum, sorted by magnitude descending, cut to the top four.
///
/// The time stamped onto every point is the chunk's step start,
/// `chunk_index * step_size / sample_rate`, in milliseconds.
pub fn significant_peaks(
    spectrum: &Vec<u64>,
    sample_rate: u32,
    chunk_index: u64,
    step_size: u64,
) -> (r: Vec<ConstellationPoint>)
    requires
        sample_rate >= 1,
        chunk_index * step_size <= 0xffff_ffff_ffff,
    ensures
        ({
            let t = chunk_time_ms(chunk_index as int, step_size as int, sample_rate as int);
            &&& r@ == spec_significant_peaks(spectrum@, sample_rate as int, t)
            &&& r@.len() <= 4
            &&& forall|i: int|
                0 <= i < r@.len() ==> (#[trigger] r@[i]).wf() && r@[i].time == t
        }),
{
    let ghost rate_i = sample_rate as int;
    proof {
        assert(chunk_index * step_size * 1000 <= 0xffff_ffff_ffffu64 * 1000) by (nonlinear_arith)
            requires
                0 <= chunk_index * step_size <= 0xffff_ffff_ffffu64,
        ;
        lemma_div_nonincreasing(chunk_index as int * step_size as int * 1000, rate_i);
        lemma_div_pos_is_pos(chunk_index as int * step_size as int * 1000, rate_i);
    }
    let t = ((chunk_index as u128 * step_size as u128 * 1000) / sample_rate as u128) as u64;
    let ghost t_i = chunk_time_ms(chunk_index as int, step_size as int, sample_rate as int);

    // The chunk's maximum magnitude.
    let n = spectrum.len();
    let mut mx: u64 = 0;
    let mut i: usize = 0;
    while i < n
        invariant
            n == spectrum@.len(),
            i <= n,
            mx == max_prefix(spectrum@, i as int),
        decreases n - i,
    {
        if spectrum[i] > mx {
            mx = spectrum[i];
        }
        i = i + 1;
    }

    // Candidate peaks in bin order.
    let mut cands: Vec<ConstellationPoint> = Vec::new();
    if n >= 5 {
        let mut b: usize = 2;
        while b + 2 < n
            invariant
                n == spectrum@.len(),
                n >= 5,
                2 <= b,
                b + 2 <= n,
                sample_rate >= 1,
                rate_i == sample_rate as int,
                t == t_i,
                mx == chunk_max(spectrum@),
                candidates_from(spectrum@, rate_i, t_i, mx as int, 2) == cands@ + candidates_from(
                    spectrum@,
                    rate_i,
                    t_i,
                    mx as int,
                    b as int,
                ),
                forall|k: int|
                    0 <= k < cands@.len() ==> (#[trigger] cands@[k]).wf() && cands@[k].time == t,
            decreases n - b,
        {
            let ghost before = cands@;
            if spectrum[b - 2] < spectrum[b - 1] && spectrum[b - 1] < spectrum[b] && spectrum[b]
                > spectrum[b + 1] && spectrum[b + 1] > spectrum[b + 2] {
                proof {
                    let bi = b as int;
                    let ni = n as int;
                    assert(0 <= bi * rate_i * 100 <= ni * (rate_i * 100) && bi * rate_i * 100 <= (
                    0xffff_ffff_ffff_ffffu64 as int) * (0xffff_ffffu64 as int) * 100 && 0 <= bi
                        * rate_i <= (0xffff_ffff_ffff_ffffu64 as int) * (0xffff_ffffu64 as int))
                        by (nonlinear_arith)
                        requires
                            0 <= bi <= ni <= 0xffff_ffff_ffff_ffffu64 as int,
                            1 <= rate_i <= 0xffff_ffffu64 as int,
                    ;
                    lemma_multiply_divide_le(bi * rate_i * 100, ni, rate_i * 100);
                    lemma_div_pos_is_pos(bi * rate_i * 100, ni);
                }
                let freq = ((b as u128 * sample_rate as u128 * 100) / n as u128) as u64;
                if 2000 <= freq && freq <= 500000 {
                    let mag: u64 = if mx == 0 {
                        0
                    } else {
                        proof {
                            lemma_max_prefix_ge(spectrum@, n as int, b as int);
                            lemma_mul_inequality(spectrum@[b as int] as int, mx as int, 10000);
                            vstd::arithmetic::mul::lemma_mul_is_commutative(
                                spectrum@[b as int] as int,
                                10000,
                            );
                            vstd::arithmetic::mul::lemma_mul_is_commutative(mx as int, 10000);
                            lemma_multiply_divide_le(
                                spectrum@[b as int] as int * 10000,
                                mx as int,
                                10000,
                            );
                            lemma_div_pos_is_pos(spectrum@[b as int] as int * 10000, mx as int);
                        }
                        ((spectrum[b] as u128 * 10000) / mx as u128) as u64
                    };
                    let p = ConstellationPoint { time: t, frequency: freq, magnitude: mag };
                    proof {
                        assert(p.wf());
                        assert(p == candidates_from(spectrum@, rate_i, t_i, mx as int, b as int)[0]);
                    }
                    cands.push(p);
                }
            }
            proof {
                let tail = candidates_from(spectrum@, rate_i, t_i, mx as int, b as int + 1);
                assert(before + candidates_from(spectrum@, rate_i, t_i, mx as int, b as int)
                    =~= cands@ + tail);
            }
            b = b + 1;
        }
    }
    proof {
        assert(candidates_from(spectrum@, rate_i, t_i, mx as int, 2) =~= cands@);
    }

    // Sort by magnitude descending and keep the strongest four.
    let mut out = sort_points_desc(&cands);
    out.truncate(4);
    proof {
        let sorted = sort_points_desc_spec(cands@);
        assert forall|i: int| 0 <= i < out@.len() implies (#[trigger] out@[i]).wf()
            && out@[i].time == t by {
            assert(out@[i] == sorted[i]);
            assert(sorted.contains(sorted[i]));
            crate::sorting::lemma_sort_contains(cands@, sorted[i]);
            let j = choose|j: int| 0 <= j < cands@.len() && cands@[j] == sorted[i];
            assert(cands@[j].wf());
        }
    }
    out
}

/// Chunks a conditioned stream of `n` samples yields: sliding windows of
/// `CHUNK_SIZE` samples advancing by `STEP_SIZE`, the final partial chunk
/// dropped.
pub open spec fn spec_chunk_count(n: int) -> int {
    if n >= 4096 {
        (n - 4096) / 2048 + 1
    } else {
        0
    }
}

/// What the extractor guarantees of one chunk's point list: at most four
/// points, each well-formed and stamped with the chunk's step start time, and
/// the whole list the peak-picking of some `CHUNK_SIZE`-bin spectrum.
pub open spec fn points_of_chunk(pts: Seq<ConstellationPoint>, rate: int, c: int) -> bool {
    &&& pts.len() <= 4
    &&& (forall|i: int|
        0 <= i < pts.len() ==> (#[trigger] pts[i]).wf() && pts[i].time == chunk_time_ms(
            c,
            2048,
            rate,
        ))
    &&& exists|m: Seq<u64>|
        m.len() == 4096 && pts == spec_significant_peaks(m, rate, chunk_time_ms(c, 2048, rate))
}

/// What the extractor guarantees chunk by chunk satisfies the fingerprint
/// generator's demands: every point is well-formed, and chunk order is time
/// order.
pub proof fn lemma_extracted_points_feed_generator(
    points: Seq<Vec<ConstellationPoint>>,
    rate: int,
)
    requires
        rate >= 1,
        forall|c: int| 0 <= c < points.len() ==> points_of_chunk(#[trigger] points[c]@, rate, c),
    ensures
        crate::fingerprint::points_wf(points),
        crate::fingerprint::chunk_times_monotone(points),
{
    assert forall|c: int, i: int|
        0 <= c < points.len() && 0 <= i < points[c]@.len() implies (
    #[trigger] points[c]@[i]).wf() by {
        assert(points_of_chunk(points[c]@, rate, c));
    }
    assert forall|c1: int, i1: int, c2: int, i2: int|
        0 <= c1 <= c2 < points.len() && 0 <= i1 < points[c1]@.len() && 0 <= i2
            < points[c2]@.len() implies #[trigger] points[c1]@[i1].time
        <= #[trigger] points[c2]@[i2].time by {
        assert(points_of_chunk(points[c1]@, rate, c1));
        assert(points_of_chunk(points[c2]@, rate, c2));
        assert(points[c1]@[i1].time == chunk_time_ms(c1, 2048, rate));
        assert(points[c2]@[i2].time == chunk_time_ms(c2, 2048, rate));
        lemma_mul_inequality(c1, c2, 2048int * 1000int);
        assert(c1 * 2048 * 1000 == c1 * (2048 * 1000) && c2 * 2048 * 1000 == c2 * (2048 * 1000))
            by (nonlinear_arith);
        lemma_div_is_ordered(c1 * 2048 * 1000, c2 * 2048 * 1000, rate);
    }
}

/// Extracts the chunked constellation map of an audio source: the conditioned
/// mono stream is analyzed in 50%-overlapping windows of `CHUNK_SIZE`
/// samples, and chunk `c` of the result holds the constellation points of the
/// window starting at sample `c * STEP_SIZE`.
pub fn constellation_points(source: BandpassFilterMonoSource) -> (r: Vec<Vec<ConstellationPoint>>)
    requires
        source.wf(),
        source.spec_samples().len() <= 0xffff_ffff_ffff,
    ensures
        ({
            let cond = source.spec_remaining();
            let rate = source.spec_sample_rate() as int;
            &&& r@.len() == spec_chunk_count(cond.len() as int)
            &&& forall|c: int| 0 <= c < r@.len() ==> points_of_chunk(#[trigger] r@[c]@, rate, c)
        }),
{
    let mut src = source;
    proof {
        crate::conditioner::lemma_conditioned_len(
            src.samples@,
            src.channels as nat,
            src.downsample_ratio as nat,
            src.pos as int,
            src.x1 as int,
            src.y1 as int,
            src.y2 as int,
        );
    }
    let samples = src.collect_conditioned();
    let rate = src.sample_rate();
    let ghost cond = samples@;
    let ghost rate_i = rate as int;
    let window = hamming_window(CHUNK_SIZE);
    let n = samples.len();
    let mut out: Vec<Vec<ConstellationPoint>> = Vec::new();
    let mut start: usize = 0;
    let mut c: usize = 0;
    while n >= CHUNK_SIZE && start <= n - CHUNK_SIZE
        invariant
            n == cond.len(),
            n <= 0xffff_ffff_ffff,
            samples@ == cond,
            rate >= 1,
            rate_i == rate as int,
            window@.len() == CHUNK_SIZE,
            forall|i: int| 0 <= i < window@.len() ==> 0 <= #[trigger] window@[i] <= 10000,
            out@.len() == c,
            start == c * 2048,
            start <= n,
            c == 0 || (c - 1) * 2048 + 4096 <= n,
            forall|k: int| 0 <= k < c ==> points_of_chunk(#[trigger] out@[k]@, rate_i, k),
        decreases n - start,
    {
        let windowed = apply_hamming_window(&samples, start, &window);
        let spectrum = fft_magnitudes(&windowed);
        let peaks = significant_peaks(&spectrum, rate, c as u64, 2048);
        proof {
            let t = chunk_time_ms(c as int, 2048, rate_i);
            assert(spectrum@.len() == 4096);
            assert(peaks@ == spec_significant_peaks(spectrum@, rate_i, t));
            assert(exists|m: Seq<u64>|
                m.len() == 4096 && peaks@ == spec_significant_peaks(m, rate_i, t)) by {
                assert(spectrum@.len() == 4096 && peaks@ == spec_significant_peaks(
                    spectrum@,
                    rate_i,
                    t,
                ));
            }
            assert(points_of_chunk(peaks@, rate_i, c as int));
        }
        out.push(peaks);
        start = start + STEP_SIZE;
        c = c + 1;
    }
    proof {
        if n >= 4096 {
            assert(c >= 1);
            let q = c as int - 1;
            let x = n as int - 4096;
            lemma_fundamental_div_mod_converse(x, 2048, q, x - q * 2048);
            assert(spec_chunk_count(n as int) == c as int);
        } else {
            assert(c == 0);
        }
    }
    out
}

} // verus!
