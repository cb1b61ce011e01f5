//! Fingerprint generation: pairing anchor peaks with nearby target peaks
//! under a harmonic-relatedness and confidence filter, and hashing the pair
//! into a compact catalog lookup key.

use vstd::prelude::*;

use crate::constellation::ConstellationPoint;
use crate::numeric::{isqrt, spec_isqrt};

verus! {

/// FNV-1a 64-bit offset basis.
pub const FNV_OFFSET: u64 = 14695981039346656037;

/// FNV-1a 64-bit prime.
pub const FNV_PRIME: u64 = 1099511628211;

/// A compact hash plus metadata derived from an anchor/target pair of
/// constellation points.
///
/// `time_offset` is the anchor's absolute time within its source clip in
/// milliseconds; `confidence` is the unnormalized square root of the
/// magnitude product, in hundredths of the 0-100 scale; frequencies are in
/// centi-hertz; `delta_t` is the anchor-to-target time gap in milliseconds.
#[derive(Debug, Clone, Copy, PartialEq, Eq, Structural)]
pub struct Fingerprint {
    pub hash: i64,
    pub time_offset: u64,
    pub confidence: u64,
    pub anchor_freq: u64,
    pub target_freq: u64,
    pub delta_t: u64,
}

/// `f / w` rounded to the nearest integer, halves to even - the rounding of
/// decimal arithmetic, on which the hash bins are equality-sensitive.
pub open spec fn round_half_even(f: int, w: int) -> int
    recommends
        0 <= f,
        w >= 1,
{
    let q = f / w;
    let r = f % w;
    if 2 * r > w {
        q + 1
    } else if 2 * r < w {
        q
    } else if q % 2 == 0 {
        q
    } else {
        q + 1
    }
}

/// Rounding to a bin never orders two frequencies the wrong way round.
pub proof fn lemma_round_half_even_monotonic(f1: int, f2: int, w: int)
    requires
        0 <= f1 <= f2,
        w >= 1,
    ensures
        round_half_even(f1, w) <= round_half_even(f2, w),
{
    vstd::arithmetic::div_mod::lemma_div_is_ordered(f1, f2, w);
    vstd::arithmetic::div_mod::lemma_mod_division_less_than_divisor(f1, w);
    vstd::arithmetic::div_mod::lemma_mod_division_less_than_divisor(f2, w);
    if f1 / w == f2 / w {
        vstd::arithmetic::div_mod::lemma_fundamental_div_mod(f1, w);
        vstd::arithmetic::div_mod::lemma_fundamental_div_mod(f2, w);
    }
}

/// Adaptive frequency quantization over centi-hertz, rounding to the nearest
/// bin with halves to even: 5 Hz bins below 300 Hz, 10 Hz bins below
/// 1000 Hz, 20 Hz bins above.
pub open spec fn spec_quantize_frequency(freq: int) -> int {
    if freq <= 0 {
        0
    } else if freq < 30000 {
        round_half_even(freq, 500)
    } else if freq < 100000 {
        round_half_even(freq, 1000)
    } else {
        round_half_even(freq, 2000)
    }
}

/// The quantization band a frequency (in centi-hertz) falls in.
pub open spec fn freq_band(freq: int) -> int {
    if freq <= 0 {
        0
    } else if freq < 30000 {
        1
    } else if freq < 100000 {
        2
    } else {
        3
    }
}

/// Rounds `freq / w` to the nearest bin, halves to even.
fn round_to_bin(freq: u64, w: u64) -> (r: u64)
    requires
        2 <= w <= 2000,
    ensures
        r == round_half_even(freq as int, w as int),
{
    proof {
        vstd::arithmetic::div_mod::lemma_div_is_ordered_by_denominator(freq as int, 2, w as int);
        vstd::arithmetic::div_mod::lemma_div_is_ordered(freq as int, u64::MAX as int, 2);
    }
    let q = freq / w;
    let rem = freq % w;
    if 2 * rem > w {
        q + 1
    } else if 2 * rem < w {
        q
    } else if q % 2 == 0 {
        q
    } else {
        q + 1
    }
}

/// Quantizes a frequency in centi-hertz into its adaptive bin.
pub fn quantize_frequency(freq: u64) -> (r: u64)
    ensures
        r == spec_quantize_frequency(freq as int),
{
    if freq == 0 {
        0
    } else if freq < 30000 {
        round_to_bin(freq, 500)
    } else if freq < 100000 {
        round_to_bin(freq, 1000)
    } else {
        round_to_bin(freq, 2000)
    }
}

/// Quantization is monotone within each band: of two frequencies in the same
/// band, the lower one never lands in a higher bin.
pub proof fn lemma_quantize_monotonic(f1: int, f2: int)
    requires
        f1 <= f2,
        freq_band(f1) == freq_band(f2),
    ensures
        spec_quantize_frequency(f1) <= spec_quantize_frequency(f2),
{
    if f1 <= 0 {
    } else if f1 < 30000 {
        lemma_round_half_even_monotonic(f1, f2, 500);
    } else if f1 < 100000 {
        lemma_round_half_even_monotonic(f1, f2, 1000);
    } else {
        lemma_round_half_even_monotonic(f1, f2, 2000);
    }
}

/// One FNV-1a folding step: xor the value in, multiply by the prime mod 2^64.
pub open spec fn fnv_fold(h: u64, v: u64) -> u64 {
    vstd::wrapping::u64_specs::wrapping_mul(h ^ v, FNV_PRIME)
}

/// The fingerprint hash of a quantized (anchor, target, delta) triple:
/// FNV-1a over the three values, reinterpreted as a signed 64-bit integer.
pub open spec fn spec_hash_quantized(qa: u64, qb: u64, qdt: u64) -> i64 {
    fnv_fold(fnv_fold(fnv_fold(FNV_OFFSET, qa), qb), qdt) as i64
}

/// The hash of a raw pair: anchor and target frequencies in centi-hertz and
/// the time gap in milliseconds, each quantized first (the gap to hundredths
/// of a second, truncating).
pub open spec fn spec_fingerprint_hash(anchor_freq: int, target_freq: int, delta_t_ms: int) -> i64 {
    spec_hash_quantized(
        spec_quantize_frequency(anchor_freq) as u64,
        spec_quantize_frequency(target_freq) as u64,
        (delta_t_ms / 10) as u64,
    )
}

impl Fingerprint {
    /// Hashes an anchor frequency, target frequency (centi-hertz) and time
    /// gap (milliseconds) into the catalog lookup key. Any two pairs with the
    /// same quantized triple collide by design.
    pub fn hash_of(anchor_freq: u64, target_freq: u64, delta_t_ms: u64) -> (r: i64)
        ensures
            r == spec_fingerprint_hash(anchor_freq as int, target_freq as int, delta_t_ms as int),
    {
        let a = quantize_frequency(anchor_freq);
        let b = quantize_frequency(target_freq);
        let dt = delta_t_ms / 10;

        let mut hash: u64 = FNV_OFFSET;
        hash = (hash ^ a).wrapping_mul(FNV_PRIME);
        hash = (hash ^ b).wrapping_mul(FNV_PRIME);
        hash = (hash ^ dt).wrapping_mul(FNV_PRIME);
        proof {
            assert(spec_quantize_frequency(anchor_freq as int) == a as int);
            assert(spec_quantize_frequency(target_freq as int) == b as int);
        }
        hash as i64
    }
}

/// Identical quantized triples always yield identical hashes.
pub proof fn lemma_hash_deterministic(
    af1: int,
    tf1: int,
    dt1: int,
    af2: int,
    tf2: int,
    dt2: int,
)
    requires
        spec_quantize_frequency(af1) == spec_quantize_frequency(af2),
        spec_quantize_frequency(tf1) == spec_quantize_frequency(tf2),
        dt1 / 10 == dt2 / 10,
    ensures
        spec_fingerprint_hash(af1, tf1, dt1) == spec_fingerprint_hash(af2, tf2, dt2),
{
}

/// The unnormalized pair confidence: the integer square root of the product
/// of the two magnitudes (both in hundredths of the 0-100 scale).
pub open spec fn spec_confidence(m1: nat, m2: nat) -> nat {
    spec_isqrt(m1 * m2)
}

/// Computes the confidence of a pair of magnitudes.
pub fn confidence(magnitude1: u64, magnitude2: u64) -> (r: u64)
    requires
        magnitude1 <= 10000,
        magnitude2 <= 10000,
    ensures
        r == spec_confidence(magnitude1 as nat, magnitude2 as nat),
        r <= 10000,
{
    proof {
        assert(magnitude1 * magnitude2 <= 10000 * 10000) by (nonlinear_arith)
            requires
                magnitude1 <= 10000,
                magnitude2 <= 10000,
        ;
    }
    let r = isqrt(magnitude1 * magnitude2);
    proof {
        assert(r <= 10000) by (nonlinear_arith)
            requires
                r * r <= magnitude1 * magnitude2,
                magnitude1 <= 10000,
                magnitude2 <= 10000,
        ;
    }
    r
}

/// `hi/lo` lies strictly within 0.05 of the per-mille ratio `r_milli/1000`,
/// stated exactly over the cross-multiplied integers.
pub open spec fn ratio_near(hi: int, lo: int, r_milli: int) -> bool {
    -(50 * lo) < 1000 * hi - r_milli * lo < 50 * lo
}

/// Two frequencies (centi-hertz) form a recognized musical interval - their
/// ratio lies within 0.05 of unison, major second, minor third, major third,
/// perfect fourth, perfect fifth, minor sixth, major seventh or octave - or
/// lie within 20 Hz of each other.
pub open spec fn spec_harmonically_related(f1: int, f2: int) -> bool {
    let hi = if f1 > f2 {
        f1
    } else {
        f2
    };
    let lo = if f1 > f2 {
        f2
    } else {
        f1
    };
    ||| ratio_near(hi, lo, 1000)
    ||| ratio_near(hi, lo, 1125)
    ||| ratio_near(hi, lo, 1200)
    ||| ratio_near(hi, lo, 1250)
    ||| ratio_near(hi, lo, 1333)
    ||| ratio_near(hi, lo, 1500)
    ||| ratio_near(hi, lo, 1667)
    ||| ratio_near(hi, lo, 1875)
    ||| ratio_near(hi, lo, 2000)
    ||| hi - lo < 2000
}

/// Tests whether `1000 * hi` lies strictly within `50 * lo` of `r_milli * lo`.
fn ratio_near_exec(hi: u64, lo: u64, r_milli: u64) -> (r: bool)
    requires
        r_milli <= 2000,
    ensures
        r == ratio_near(hi as int, lo as int, r_milli as int),
{
    proof {
        assert(r_milli * lo <= 2000 * 0xffff_ffff_ffff_ffffu64) by (nonlinear_arith)
            requires
                r_milli <= 2000,
                lo <= 0xffff_ffff_ffff_ffffu64,
        ;
    }
    let scaled: u128 = 1000 * hi as u128;
    let center: u128 = r_milli as u128 * lo as u128;
    let tol: u128 = 50 * lo as u128;
    if scaled >= center {
        scaled - center < tol
    } else {
        center - scaled < tol
    }
}

/// The fingerprint of an anchor/target pair: the anchor precedes the target,
/// `time_offset` is the anchor's absolute time, `delta_t` the gap between
/// them.
pub open spec fn spec_fingerprint_of(anchor: ConstellationPoint, target: ConstellationPoint)
    -> Fingerprint {
    let delta = target.time - anchor.time;
    Fingerprint {
        hash: spec_fingerprint_hash(anchor.frequency as int, target.frequency as int, delta),
        time_offset: anchor.time,
        confidence: spec_confidence(anchor.magnitude as nat, target.magnitude as nat) as u64,
        anchor_freq: anchor.frequency,
        target_freq: target.frequency,
        delta_t: delta as u64,
    }
}

/// The strongest of the first `k` points, the last one winning ties.
pub open spec fn spec_strongest_from(s: Seq<ConstellationPoint>, k: int) -> ConstellationPoint
    recommends
        1 <= k <= s.len(),
    decreases k,
{
    if k <= 1 {
        s[0]
    } else {
        let prev = spec_strongest_from(s, k - 1);
        if s[k - 1].magnitude >= prev.magnitude {
            s[k - 1]
        } else {
            prev
        }
    }
}

/// The strongest peak of a chunk, the last one winning ties.
pub open spec fn spec_strongest(s: Seq<ConstellationPoint>) -> ConstellationPoint {
    spec_strongest_from(s, s.len() as int)
}

/// The fixed chunk offsets at which an anchor looks for targets, in scan
/// order.
pub open spec fn spec_offsets() -> Seq<int> {
    seq![1, 2, 3, 4, 5, 6, 8, 12]
}

/// An anchor/target pair survives the filters: harmonically related
/// frequencies and a confidence of at least 40 on the 0-100 scale.
pub open spec fn spec_pair_accepted(anchor: ConstellationPoint, target: ConstellationPoint) -> bool {
    &&& spec_harmonically_related(anchor.frequency as int, target.frequency as int)
    &&& spec_confidence(anchor.magnitude as nat, target.magnitude as nat) >= 4000
}

/// The fingerprints one anchor in chunk `c` emits, scanning the offsets from
/// index `oi` on with `count` pairs already emitted: the strongest peak of
/// each present, non-empty target chunk is tried in offset order, and the
/// scan stops after the third emitted pair.
pub open spec fn spec_anchor_fps(
    points: Seq<Vec<ConstellationPoint>>,
    c: int,
    anchor: ConstellationPoint,
    oi: int,
    count: int,
) -> Seq<Fingerprint>
    decreases 8 - oi
        when 0 <= oi
{
    if oi >= 8 || count >= 3 {
        Seq::empty()
    } else {
        let tc = c + spec_offsets()[oi];
        if 0 <= tc < points.len() && points[tc]@.len() > 0 {
            let target = spec_strongest(points[tc]@);
            if spec_pair_accepted(anchor, target) {
                seq![spec_fingerprint_of(anchor, target)] + spec_anchor_fps(
                    points,
                    c,
                    anchor,
                    oi + 1,
                    count + 1,
                )
            } else {
                spec_anchor_fps(points, c, anchor, oi + 1, count)
            }
        } else {
            spec_anchor_fps(points, c, anchor, oi + 1, count)
        }
    }
}

/// The chunk's anchors: its points sorted by magnitude descending (stable),
/// cut to the strongest three.
pub open spec fn spec_anchors(pts: Seq<ConstellationPoint>) -> Seq<ConstellationPoint> {
    let sorted = crate::sorting::sort_points_desc_spec(pts);
    if sorted.len() <= 3 {
        sorted
    } else {
        sorted.subrange(0, 3)
    }
}

/// The fingerprints of chunk `c`'s anchors from index `ai` on, in anchor
/// order.
pub open spec fn spec_chunk_fps(
    points: Seq<Vec<ConstellationPoint>>,
    c: int,
    anchors: Seq<ConstellationPoint>,
    ai: int,
) -> Seq<Fingerprint>
    decreases anchors.len() - ai,
{
    if ai < 0 || ai >= anchors.len() {
        Seq::empty()
    } else {
        spec_anchor_fps(points, c, anchors[ai], 0, 0) + spec_chunk_fps(points, c, anchors, ai + 1)
    }
}

/// All fingerprints of the chunks from `c` on, in chunk order.
pub open spec fn spec_generate_from(points: Seq<Vec<ConstellationPoint>>, c: int) -> Seq<
    Fingerprint,
>
    decreases points.len() - c
        when 0 <= c
{
    if c >= points.len() {
        Seq::empty()
    } else {
        let here = if points[c]@.len() == 0 {
            Seq::empty()
        } else {
            spec_chunk_fps(points, c, spec_anchors(points[c]@), 0)
        };
        here + spec_generate_from(points, c + 1)
    }
}

/// The full fingerprint set of a chunked constellation map.
pub open spec fn spec_generate_fingerprints(points: Seq<Vec<ConstellationPoint>>) -> Seq<
    Fingerprint,
> {
    spec_generate_from(points, 0)
}

/// Every point of every chunk is well-formed.
pub open spec fn points_wf(points: Seq<Vec<ConstellationPoint>>) -> bool {
    forall|c: int, i: int|
        0 <= c < points.len() && 0 <= i < points[c]@.len() ==> (#[trigger] points[c]@[i]).wf()
}

/// Points of a later chunk never carry an earlier time: chunk index order is
/// time order.
pub open spec fn chunk_times_monotone(points: Seq<Vec<ConstellationPoint>>) -> bool {
    forall|c1: int, i1: int, c2: int, i2: int|
        0 <= c1 <= c2 < points.len() && 0 <= i1 < points[c1]@.len() && 0 <= i2
            < points[c2]@.len() ==> #[trigger] points[c1]@[i1].time <= #[trigger] points[c2]@[i2].time
}

/// The chunk offset scanned at index `oi`.
fn offset_at(oi: usize) -> (r: usize)
    requires
        oi < 8,
    ensures
        r as int == spec_offsets()[oi as int],
        1 <= r <= 12,
{
    let r: usize = if oi == 0 {
        1
    } else if oi == 1 {
        2
    } else if oi == 2 {
        3
    } else if oi == 3 {
        4
    } else if oi == 4 {
        5
    } else if oi == 5 {
        6
    } else if oi == 6 {
        8
    } else {
        12
    };
    r
}

/// The strongest point of a non-empty chunk, the last one winning ties.
pub fn strongest_point(pts: &Vec<ConstellationPoint>) -> (r: ConstellationPoint)
    requires
        pts@.len() > 0,
    ensures
        r == spec_strongest(pts@),
        pts@.contains(r),
{
    let mut best = pts[0];
    let mut j: usize = 1;
    proof {
        assert(pts@[0] == best);
    }
    while j < pts.len()
        invariant
            1 <= j <= pts@.len(),
            best == spec_strongest_from(pts@, j as int),
            pts@.contains(best),
        decreases pts@.len() - j,
    {
        if pts[j].magnitude >= best.magnitude {
            best = pts[j];
            proof {
                assert(pts@[j as int] == best);
            }
        }
        j = j + 1;
    }
    best
}

/// Tests whether two frequencies (centi-hertz) are harmonically related.
pub fn is_harmonically_related(f1: u64, f2: u64) -> (r: bool)
    ensures
        r == spec_harmonically_related(f1 as int, f2 as int),
{
    let hi = if f1 > f2 {
        f1
    } else {
        f2
    };
    let lo = if f1 > f2 {
        f2
    } else {
        f1
    };
    if ratio_near_exec(hi, lo, 1000) {
        return true;
    }
    if ratio_near_exec(hi, lo, 1125) {
        return true;
    }
    if ratio_near_exec(hi, lo, 1200) {
        return true;
    }
    if ratio_near_exec(hi, lo, 1250) {
        return true;
    }
    if ratio_near_exec(hi, lo, 1333) {
        return true;
    }
    if ratio_near_exec(hi, lo, 1500) {
        return true;
    }
    if ratio_near_exec(hi, lo, 1667) {
        return true;
    }
    if ratio_near_exec(hi, lo, 1875) {
        return true;
    }
    if ratio_near_exec(hi, lo, 2000) {
        return true;
    }
    hi - lo < 2000
}

/// Generates the fingerprint set of a chunked constellation map: per chunk,
/// the strongest three points become anchors; each anchor scans the fixed
/// chunk offsets in order, pairs with the strongest peak of each non-empty
/// target chunk that passes the harmonic-relatedness and confidence filters,
/// and stops after emitting three pairs.
/// Emits the fingerprints of one anchor of chunk `c`, scanning the fixed
/// offsets in order and stopping after three pairs.
fn anchor_fingerprints(
    points: &Vec<Vec<ConstellationPoint>>,
    c: usize,
    anchor: ConstellationPoint,
    fps: &mut Vec<Fingerprint>,
)
    requires
        points_wf(points@),
        chunk_times_monotone(points@),
        c < points@.len(),
        anchor.wf(),
        points@[c as int]@.contains(anchor),
    ensures
        final(fps)@ == old(fps)@ + spec_anchor_fps(points@, c as int, anchor, 0, 0),
{
    let ghost ia = choose|ia: int|
        0 <= ia < points@[c as int]@.len() && points@[c as int]@[ia] == anchor;
    let n = points.len();
    let mut oi: usize = 0;
    let mut count: usize = 0;
    while oi < 8 && count < 3
        invariant
            points_wf(points@),
            chunk_times_monotone(points@),
            n == points@.len(),
            c < n,
            oi <= 8,
            count <= 3,
            anchor.wf(),
            0 <= ia < points@[c as int]@.len(),
            points@[c as int]@[ia] == anchor,
            old(fps)@ + spec_anchor_fps(points@, c as int, anchor, 0, 0) == fps@ + spec_anchor_fps(
                points@,
                c as int,
                anchor,
                oi as int,
                count as int,
            ),
        decreases 8 - oi,
    {
        let ghost fps_before = fps@;
        let off = offset_at(oi);
        if off < n - c {
            let tc = c + off;
            if points[tc].len() > 0 {
                let target = strongest_point(&points[tc]);
                let ghost it = choose|it: int|
                    0 <= it < points@[tc as int]@.len() && points@[tc as int]@[it] == target;
                proof {
                    assert(points@[tc as int]@[it].wf());
                    assert(points@[c as int]@[ia].time <= points@[tc as int]@[it].time);
                }
                if is_harmonically_related(anchor.frequency, target.frequency) {
                    let conf = confidence(anchor.magnitude, target.magnitude);
                    if conf >= 4000 {
                        let delta = target.time - anchor.time;
                        let hash = Fingerprint::hash_of(anchor.frequency, target.frequency, delta);
                        let fp = Fingerprint {
                            hash,
                            time_offset: anchor.time,
                            confidence: conf,
                            anchor_freq: anchor.frequency,
                            target_freq: target.frequency,
                            delta_t: delta,
                        };
                        proof {
                            assert(fp == spec_fingerprint_of(anchor, target));
                        }
                        fps.push(fp);
                        count = count + 1;
                        proof {
                            assert(spec_anchor_fps(points@, c as int, anchor, oi as int, count - 1)
                                == seq![fp] + spec_anchor_fps(
                                points@,
                                c as int,
                                anchor,
                                oi as int + 1,
                                count as int,
                            ));
                            assert(fps_before + (seq![fp] + spec_anchor_fps(
                                points@,
                                c as int,
                                anchor,
                                oi as int + 1,
                                count as int,
                            )) =~= fps@ + spec_anchor_fps(
                                points@,
                                c as int,
                                anchor,
                                oi as int + 1,
                                count as int,
                            ));
                        }
                    }
                }
            }
        }
        oi = oi + 1;
    }
    proof {
        assert(spec_anchor_fps(points@, c as int, anchor, oi as int, count as int) =~= Seq::<
            Fingerprint,
        >::empty());
        assert(fps@ =~= old(fps)@ + spec_anchor_fps(points@, c as int, anchor, 0, 0));
    }
}

#[verifier::rlimit(60)]
pub fn generate_fingerprints(points: &Vec<Vec<ConstellationPoint>>) -> (r: Vec<Fingerprint>)
    requires
        points_wf(points@),
        chunk_times_monotone(points@),
    ensures
        r@ == spec_generate_fingerprints(points@),
{
    let mut fps: Vec<Fingerprint> = Vec::new();
    let n = points.len();
    let mut c: usize = 0;
    while c < n
        invariant
            points_wf(points@),
            chunk_times_monotone(points@),
            n == points@.len(),
            c <= n,
            spec_generate_from(points@, 0) == fps@ + spec_generate_from(points@, c as int),
        decreases n - c,
    {
        let ghost fps_at_chunk = fps@;
        if points[c].len() > 0 {
            let mut anchors = crate::sorting::sort_points_desc(&points[c]);
            anchors.truncate(3);
            proof {
                assert(anchors@ == spec_anchors(points@[c as int]@));
                assert forall|k: int| 0 <= k < anchors@.len() implies points@[c as int]@.contains(
                    #[trigger] anchors@[k],
                ) by {
                    let sorted = crate::sorting::sort_points_desc_spec(points@[c as int]@);
                    assert(anchors@[k] == sorted[k]);
                    assert(sorted.contains(sorted[k]));
                    crate::sorting::lemma_sort_contains(points@[c as int]@, sorted[k]);
                }
            }
            let ghost anchor_seq = anchors@;
            let n_anchors = anchors.len();
            let mut ai: usize = 0;
            while ai < n_anchors
                invariant
                    points_wf(points@),
                    chunk_times_monotone(points@),
                    n == points@.len(),
                    c < n,
                    n_anchors == anchor_seq.len(),
                    anchors@ == anchor_seq,
                    ai <= n_anchors,
                    fps_at_chunk + spec_chunk_fps(points@, c as int, anchor_seq, 0) == fps@
                        + spec_chunk_fps(points@, c as int, anchor_seq, ai as int),
                    forall|k: int|
                        0 <= k < anchor_seq.len() ==> points@[c as int]@.contains(
                            #[trigger] anchor_seq[k],
                        ),
                decreases n_anchors - ai,
            {
                let anchor = anchors[ai];
                let ghost ia = choose|ia: int|
                    0 <= ia < points@[c as int]@.len() && points@[c as int]@[ia] == anchor;
                proof {
                    assert(points@[c as int]@[ia].wf());
                }
                let ghost fps_at_anchor = fps@;
                anchor_fingerprints(points, c, anchor, &mut fps);
                proof {
                    assert(anchor == anchor_seq[ai as int]);
                    assert(spec_chunk_fps(points@, c as int, anchor_seq, ai as int)
                        == spec_anchor_fps(points@, c as int, anchor, 0, 0) + spec_chunk_fps(
                        points@,
                        c as int,
                        anchor_seq,
                        ai as int + 1,
                    ));
                    assert(fps_at_chunk + spec_chunk_fps(points@, c as int, anchor_seq, 0) =~= fps@
                        + spec_chunk_fps(points@, c as int, anchor_seq, ai as int + 1));
                }
                ai = ai + 1;
            }
            proof {
                assert(fps@ =~= fps_at_chunk + spec_chunk_fps(
                    points@,
                    c as int,
                    spec_anchors(points@[c as int]@),
                    0,
                ));
            }
        }
        proof {
            let here = if points@[c as int]@.len() == 0 {
                Seq::<Fingerprint>::empty()
            } else {
                spec_chunk_fps(points@, c as int, spec_anchors(points@[c as int]@), 0)
            };
            assert(fps@ =~= fps_at_chunk + here);
            assert(spec_generate_from(points@, c as int) == here + spec_generate_from(
                points@,
                c as int + 1,
            ));
            assert(fps_at_chunk + (here + spec_generate_from(points@, c as int + 1)) =~= fps@
                + spec_generate_from(points@, c as int + 1));
        }
        c = c + 1;
    }
    fps
}

/// Fingerprints a whole audio source: the conditioned stream's constellation
/// is extracted and its peak pairs hashed, the extractor's guarantees
/// discharging what the generator demands of its input.
pub fn fingerprint_source(source: crate::conditioner::BandpassFilterMonoSource) -> (r: Vec<
    Fingerprint,
>)
    requires
        source.wf(),
        source.spec_samples().len() <= 0xffff_ffff_ffff,
    ensures
        exists|points: Seq<Vec<ConstellationPoint>>|
            {
                &&& points.len() == crate::constellation::spec_chunk_count(
                    source.spec_remaining().len() as int,
                )
                &&& (forall|c: int|
                    0 <= c < points.len() ==> crate::constellation::points_of_chunk(
                        (#[trigger] points[c])@,
                        source.spec_sample_rate() as int,
                        c,
                    ))
                &&& r@ == spec_generate_fingerprints(points)
            },
{
    let ghost src0 = source;
    let points = crate::constellation::constellation_points(source);
    proof {
        crate::constellation::lemma_extracted_points_feed_generator(
            points@,
            src0.spec_sample_rate() as int,
        );
    }
    let fps = generate_fingerprints(&points);
    proof {
        assert(points@.len() == crate::constellation::spec_chunk_count(
            src0.spec_remaining().len() as int,
        ) && (forall|c: int|
            0 <= c < points@.len() ==> crate::constellation::points_of_chunk(
                (#[trigger] points@[c])@,
                src0.spec_sample_rate() as int,
                c,
            )) && fps@ == spec_generate_fingerprints(points@));
    }
    fps
}

} // verus!
