//! Matching: a query's fingerprints against per-candidate-song catalog
//! fingerprints, by time-offset histogram voting. For every (stored, query)
//! fingerprint pair sharing a hash, the offset `stored.time_offset -
//! query.time_offset` is bucketed to the nearest tenth of a second toward
//! zero and voted; the bucket with the most votes decides the song's
//! alignment and confidence.

use vstd::prelude::*;

use crate::fingerprint::Fingerprint;
use crate::numeric::div_trunc;

verus! {

/// A ranked per-song match.
///
/// `confidence` is the winning bucket's vote count over the full query
/// fingerprint count, in thousandths; `time_offset` is how many milliseconds
/// into the song the query starts, quantized to tenths of a second.
#[derive(Debug, Clone, Copy, PartialEq, Eq, Structural)]
pub struct MatchResult {
    pub song_id: i64,
    pub confidence: u64,
    pub matched_count: u64,
    pub time_offset: i64,
}

/// No fingerprint time reaches 2^60 milliseconds (over thirty million
/// years): the bound that keeps offset arithmetic within `i64`.
pub open spec fn times_bounded(fps: Seq<Fingerprint>) -> bool {
    forall|i: int| 0 <= i < fps.len() ==> (#[trigger] fps[i]).time_offset < 0x1000_0000_0000_0000
}

/// The vote bucket of a (stored, query) pair: their time-offset difference in
/// tenths of a second, truncated toward zero.
pub open spec fn spec_offset_bucket(stored_ms: u64, query_ms: u64) -> int {
    div_trunc(stored_ms - query_ms, 100)
}

/// The votes a song collects, in scan order: stored fingerprints outermost,
/// query fingerprints innermost, one vote per pair sharing a hash, starting
/// at stored index `si` and query index `qi`.
pub open spec fn spec_votes(
    stored: Seq<Fingerprint>,
    query: Seq<Fingerprint>,
    si: int,
    qi: int,
) -> Seq<i64>
    decreases stored.len() - si, query.len() - qi
        when 0 <= si && 0 <= qi
{
    if si >= stored.len() {
        Seq::empty()
    } else if qi >= query.len() {
        spec_votes(stored, query, si + 1, 0)
    } else {
        let rest = spec_votes(stored, query, si, qi + 1);
        if stored[si].hash == query[qi].hash {
            seq![spec_offset_bucket(stored[si].time_offset, query[qi].time_offset) as i64] + rest
        } else {
            rest
        }
    }
}

/// How often bucket `b` occurs among the first `k` votes.
pub open spec fn hist_count(votes: Seq<i64>, k: int, b: i64) -> int
    decreases k,
{
    if k <= 0 {
        0
    } else {
        hist_count(votes, k - 1, b) + if votes[k - 1] == b {
            1int
        } else {
            0int
        }
    }
}

/// The leading bucket and its count after the first `k` votes: a bucket takes
/// the lead only by strictly exceeding the count held so far, so the first
/// bucket to reach a new maximum wins ties.
pub open spec fn spec_best_bucket(votes: Seq<i64>, k: int) -> (i64, int)
    decreases k,
{
    if k <= 0 {
        (0, 0)
    } else {
        let (bb, bc) = spec_best_bucket(votes, k - 1);
        let c = hist_count(votes, k, votes[k - 1]);
        if c > bc {
            (votes[k - 1], c)
        } else {
            (bb, bc)
        }
    }
}

/// Counting only reads the first `k` votes.
proof fn lemma_hist_count_prefix(v1: Seq<i64>, v2: Seq<i64>, k: int, b: i64)
    requires
        k <= v1.len(),
        k <= v2.len(),
        forall|i: int| 0 <= i < k ==> v1[i] == v2[i],
    ensures
        hist_count(v1, k, b) == hist_count(v2, k, b),
    decreases k,
{
    if k > 0 {
        lemma_hist_count_prefix(v1, v2, k - 1, b);
    }
}

/// The leading bucket only reads the first `k` votes.
proof fn lemma_best_bucket_prefix(v1: Seq<i64>, v2: Seq<i64>, k: int)
    requires
        k <= v1.len(),
        k <= v2.len(),
        forall|i: int| 0 <= i < k ==> v1[i] == v2[i],
    ensures
        spec_best_bucket(v1, k) == spec_best_bucket(v2, k),
    decreases k,
{
    if k > 0 {
        lemma_best_bucket_prefix(v1, v2, k - 1);
        lemma_hist_count_prefix(v1, v2, k, v1[k - 1]);
    }
}

/// The histogram, as an association list, holds bucket `b`.
pub open spec fn hist_has(h: Seq<(i64, u64)>, b: i64) -> bool {
    exists|j: int| 0 <= j < h.len() && (#[trigger] h[j]).0 == b
}

/// Each bucket appears at most once in the histogram.
pub open spec fn hist_keys_distinct(h: Seq<(i64, u64)>) -> bool {
    forall|j1: int, j2: int|
        0 <= j1 < j2 < h.len() ==> (#[trigger] h[j1]).0 != (#[trigger] h[j2]).0
}

/// The count the histogram records for bucket `b`, zero if absent.
pub open spec fn hist_lookup(h: Seq<(i64, u64)>, b: i64) -> int {
    if hist_has(h, b) {
        h[choose|j: int| 0 <= j < h.len() && (#[trigger] h[j]).0 == b].1 as int
    } else {
        0
    }
}

/// Records one vote in the histogram and updates the leading bucket.
fn record_vote(
    hist: &mut Vec<(i64, u64)>,
    bucket: i64,
    best_b: &mut i64,
    best_c: &mut u64,
    Ghost(votes): Ghost<Seq<i64>>,
    Ghost(cap): Ghost<int>,
)
    requires
        hist_keys_distinct(old(hist)@),
        forall|x: i64| hist_lookup(old(hist)@, x) == hist_count(votes, votes.len() as int, x),
        forall|x: i64| hist_lookup(old(hist)@, x) <= votes.len(),
        (*old(best_b), *old(best_c) as int) == spec_best_bucket(votes, votes.len() as int),
        *old(best_c) <= votes.len(),
        votes.len() < cap,
        cap <= 0x4000_0000_0000_0000,
        -0x40_0000_0000_0000 <= bucket <= 0x40_0000_0000_0000,
        -0x40_0000_0000_0000 <= *old(best_b) <= 0x40_0000_0000_0000,
    ensures
        ({
            let votes2 = votes.push(bucket);
            &&& hist_keys_distinct(final(hist)@)
            &&& (forall|x: i64|
                hist_lookup(final(hist)@, x) == hist_count(votes2, votes2.len() as int, x))
            &&& (forall|x: i64| hist_lookup(final(hist)@, x) <= votes2.len())
            &&& (*final(best_b), *final(best_c) as int) == spec_best_bucket(
                votes2,
                votes2.len() as int,
            )
            &&& *final(best_c) <= votes2.len()
            &&& -0x40_0000_0000_0000 <= *final(best_b) <= 0x40_0000_0000_0000
        }),
{
    let ghost votes2 = votes.push(bucket);
    proof {
        assert forall|x: i64|
            hist_count(votes2, votes2.len() as int, x) == hist_count(votes, votes.len() as int, x)
                + if x == bucket {
                1int
            } else {
                0int
            } by {
            lemma_hist_count_prefix(votes2, votes, votes.len() as int, x);
        }
        lemma_best_bucket_prefix(votes2, votes, votes.len() as int);
    }
    // Find the bucket's histogram slot.
    let mut j: usize = 0;
    let n = hist.len();
    loop
        invariant_except_break
            n == hist@.len(),
            j <= n,
            forall|k: int| 0 <= k < j ==> (#[trigger] hist@[k]).0 != bucket,
        ensures
            j <= n,
            n == hist@.len(),
            forall|k: int| 0 <= k < j ==> (#[trigger] hist@[k]).0 != bucket,
            j < n ==> hist@[j as int].0 == bucket,
        decreases n - j,
    {
        if j == n {
            break ;
        }
        if hist[j].0 == bucket {
            break ;
        }
        j = j + 1;
    }
    let ghost h_old = hist@;
    let cnt: u64;
    if j < n {
        proof {
            assert(hist_has(h_old, bucket));
            assert(hist_lookup(h_old, bucket) == h_old[j as int].1 as int) by {
                let j2 = choose|j2: int| 0 <= j2 < h_old.len() && (#[trigger] h_old[j2]).0
                    == bucket;
                if j2 != j {
                    assert(h_old[j2].0 != h_old[j as int].0);
                }
            }
        }
        cnt = hist[j].1 + 1;
        hist.set(j, (bucket, cnt));
        proof {
            assert forall|x: i64| hist_lookup(hist@, x) == hist_count(
                votes2,
                votes2.len() as int,
                x,
            ) && hist_lookup(hist@, x) <= votes2.len() by {
                if x == bucket {
                    assert(hist@[j as int].0 == bucket);
                    assert(hist_has(hist@, bucket));
                    let j2 = choose|j2: int| 0 <= j2 < hist@.len() && (#[trigger] hist@[j2]).0
                        == bucket;
                    if j2 != j {
                        assert(hist@[j2] == h_old[j2]);
                        assert(h_old[j2].0 != h_old[j as int].0);
                    }
                } else {
                    if hist_has(hist@, x) {
                        let j2 = choose|j2: int| 0 <= j2 < hist@.len() && (#[trigger] hist@[j2]).0
                            == x;
                        assert(hist@[j2] == h_old[j2]);
                        assert(hist_has(h_old, x));
                        let j3 = choose|j3: int| 0 <= j3 < h_old.len() && (#[trigger] h_old[j3]).0
                            == x;
                        if j3 != j2 {
                            assert(h_old[j3].0 != h_old[j2].0 || h_old[j2].0 != h_old[j3].0);
                        }
                        assert(hist@[j3] == h_old[j3]);
                    } else {
                        if hist_has(h_old, x) {
                            let j3 = choose|j3: int|
                                0 <= j3 < h_old.len() && (#[trigger] h_old[j3]).0 == x;
                            assert(hist@[j3].0 == x);
                        }
                    }
                }
            }
        }
    } else {
        proof {
            assert(!hist_has(h_old, bucket));
        }
        cnt = 1;
        hist.push((bucket, 1));
        proof {
            assert forall|x: i64| hist_lookup(hist@, x) == hist_count(
                votes2,
                votes2.len() as int,
                x,
            ) && hist_lookup(hist@, x) <= votes2.len() by {
                if x == bucket {
                    assert(hist@[n as int].0 == bucket);
                    assert(hist_has(hist@, bucket));
                    let j2 = choose|j2: int| 0 <= j2 < hist@.len() && (#[trigger] hist@[j2]).0
                        == bucket;
                    if j2 != n {
                        assert(h_old[j2].0 != bucket);
                    }
                } else {
                    if hist_has(hist@, x) {
                        let j2 = choose|j2: int| 0 <= j2 < hist@.len() && (#[trigger] hist@[j2]).0
                            == x;
                        assert(j2 != n);
                        assert(h_old[j2].0 == x);
                        assert(hist_has(h_old, x));
                        let j3 = choose|j3: int| 0 <= j3 < h_old.len() && (#[trigger] h_old[j3]).0
                            == x;
                        if j3 != j2 {
                            assert(h_old[j3].0 != h_old[j2].0 || h_old[j2].0 != h_old[j3].0);
                        }
                        assert(hist@[j3] == h_old[j3]);
                    } else {
                        if hist_has(h_old, x) {
                            let j3 = choose|j3: int|
                                0 <= j3 < h_old.len() && (#[trigger] h_old[j3]).0 == x;
                            assert(hist@[j3].0 == x);
                        }
                    }
                }
            }
            assert(hist_keys_distinct(hist@)) by {
                assert(forall|k: int| 0 <= k < n ==> (#[trigger] hist@[k]) == h_old[k]);
            }
        }
    }
    proof {
        assert(cnt as int == hist_count(votes2, votes2.len() as int, bucket));
        assert(votes2[votes2.len() - 1] == bucket);
    }
    if cnt > *best_c {
        *best_b = bucket;
        *best_c = cnt;
    }
}

/// The match a single candidate song yields, if any: its best bucket must
/// gather at least three votes and more than a twentieth of the query's
/// fingerprint count.
pub open spec fn spec_song_match(
    song_id: i64,
    stored: Seq<Fingerprint>,
    query: Seq<Fingerprint>,
) -> Option<MatchResult> {
    let votes = spec_votes(stored, query, 0, 0);
    let best = spec_best_bucket(votes, votes.len() as int);
    if best.1 >= 3 && 20 * best.1 > query.len() {
        Some(
            MatchResult {
                song_id,
                confidence: (best.1 * 1000 / query.len() as int) as u64,
                matched_count: best.1 as u64,
                time_offset: (best.0 * 100) as i64,
            },
        )
    } else {
        None
    }
}

/// Matches one candidate song's stored fingerprints against the query by
/// offset voting.
pub fn song_match(song_id: i64, stored: &Vec<Fingerprint>, query: &Vec<Fingerprint>) -> (r: Option<
    MatchResult,
>)
    requires
        stored@.len() <= 0x7fff_ffff,
        query@.len() <= 0x7fff_ffff,
        times_bounded(stored@),
        times_bounded(query@),
    ensures
        r == spec_song_match(song_id, stored@, query@),
{
    let mut hist: Vec<(i64, u64)> = Vec::new();
    let mut best_b: i64 = 0;
    let mut best_c: u64 = 0;
    let ghost mut votes: Seq<i64> = Seq::empty();
    let slen = stored.len();
    let qlen = query.len();
    let mut si: usize = 0;
    while si < slen
        invariant
            slen == stored@.len() <= 0x7fff_ffff,
            qlen == query@.len() <= 0x7fff_ffff,
            times_bounded(stored@),
            times_bounded(query@),
            si <= slen,
            spec_votes(stored@, query@, 0, 0) == votes + spec_votes(stored@, query@, si as int, 0),
            hist_keys_distinct(hist@),
            forall|x: i64| hist_lookup(hist@, x) == hist_count(votes, votes.len() as int, x),
            forall|x: i64| hist_lookup(hist@, x) <= votes.len(),
            (best_b, best_c as int) == spec_best_bucket(votes, votes.len() as int),
            best_c <= votes.len(),
            -0x40_0000_0000_0000 <= best_b <= 0x40_0000_0000_0000,
            votes.len() <= si * qlen,
        decreases slen - si,
    {
        let mut qi: usize = 0;
        while qi < qlen
            invariant
                slen == stored@.len() <= 0x7fff_ffff,
                qlen == query@.len() <= 0x7fff_ffff,
                times_bounded(stored@),
                times_bounded(query@),
                si < slen,
                qi <= qlen,
                spec_votes(stored@, query@, 0, 0) == votes + spec_votes(
                    stored@,
                    query@,
                    si as int,
                    qi as int,
                ),
                hist_keys_distinct(hist@),
                forall|x: i64| hist_lookup(hist@, x) == hist_count(votes, votes.len() as int, x),
                forall|x: i64| hist_lookup(hist@, x) <= votes.len(),
                (best_b, best_c as int) == spec_best_bucket(votes, votes.len() as int),
                best_c <= votes.len(),
                -0x40_0000_0000_0000 <= best_b <= 0x40_0000_0000_0000,
                votes.len() <= si * qlen + qi,
            decreases qlen - qi,
        {
            let ghost votes_before = votes;
            if stored[si].hash == query[qi].hash {
                let s_t = stored[si].time_offset;
                let q_t = query[qi].time_offset;
                let bucket: i64 = if s_t >= q_t {
                    proof {
                        vstd::arithmetic::div_mod::lemma_multiply_divide_lt(
                            s_t - q_t,
                            100,
                            0x40_0000_0000_0000,
                        );
                        vstd::arithmetic::div_mod::lemma_div_pos_is_pos(s_t - q_t, 100);
                    }
                    ((s_t - q_t) / 100) as i64
                } else {
                    proof {
                        vstd::arithmetic::div_mod::lemma_multiply_divide_lt(
                            q_t - s_t,
                            100,
                            0x40_0000_0000_0000,
                        );
                        vstd::arithmetic::div_mod::lemma_div_pos_is_pos(q_t - s_t, 100);
                    }
                    -(((q_t - s_t) / 100) as i64)
                };
                proof {
                    assert(bucket as int == spec_offset_bucket(s_t, q_t));
                    assert(si * qlen + qi < 0x4000_0000_0000_0000int) by (nonlinear_arith)
                        requires
                            0 <= si < slen <= 0x7fff_ffff,
                            0 <= qi <= qlen <= 0x7fff_ffff,
                    ;
                }
                record_vote(
                    &mut hist,
                    bucket,
                    &mut best_b,
                    &mut best_c,
                    Ghost(votes),
                    Ghost(0x4000_0000_0000_0000int),
                );
                proof {
                    votes = votes.push(bucket);
                    assert(spec_votes(stored@, query@, si as int, qi as int) == seq![bucket]
                        + spec_votes(stored@, query@, si as int, qi as int + 1));
                    assert(votes_before + (seq![bucket] + spec_votes(
                        stored@,
                        query@,
                        si as int,
                        qi as int + 1,
                    )) =~= votes + spec_votes(stored@, query@, si as int, qi as int + 1));
                }
            }
            qi = qi + 1;
        }
        proof {
            assert((si + 1) * qlen == si * qlen + qlen) by (nonlinear_arith);
        }
        si = si + 1;
    }
    proof {
        assert(votes + spec_votes(stored@, query@, slen as int, 0) =~= votes);
        assert(votes == spec_votes(stored@, query@, 0, 0));
    }
    if best_c >= 3 {
        proof {
            if qlen == 0 {
                assert(si * qlen == 0) by (nonlinear_arith)
                    requires
                        qlen == 0,
                ;
            }
        }
        let c20: u128 = 20 * best_c as u128;
        if c20 > qlen as u128 {
            proof {
                assert(best_c * 1000 <= qlen * (0x7fff_ffffu64 * 1000)) by (nonlinear_arith)
                    requires
                        0 <= best_c <= slen * qlen,
                        0 <= slen <= 0x7fff_ffffu64,
                        1 <= qlen,
                ;
                vstd::arithmetic::div_mod::lemma_multiply_divide_le(
                    best_c as int * 1000,
                    qlen as int,
                    0x7fff_ffffu64 as int * 1000,
                );
                vstd::arithmetic::div_mod::lemma_div_pos_is_pos(best_c as int * 1000, qlen as int);
                assert(votes.len() <= slen * qlen);
            }
            let conf = ((best_c as u128 * 1000) / qlen as u128) as u64;
            Some(
                MatchResult {
                    song_id,
                    confidence: conf,
                    matched_count: best_c,
                    time_offset: best_b * 100,
                },
            )
        } else {
            None
        }
    } else {
        None
    }
}

/// How many votes remain to be cast from stored index `si`, query index `qi`
/// on, when every stored fingerprint matches exactly one query fingerprint.
pub open spec fn shift_votes_left(stored_len: int, idx: Seq<int>, si: int, qi: int) -> int {
    if si >= stored_len {
        0
    } else if qi > idx[si] {
        stored_len - si - 1
    } else {
        stored_len - si
    }
}

/// When every stored fingerprint copies one query fingerprint shifted by a
/// constant `d`, and query hashes are pairwise distinct, the vote list is a
/// run of the one bucket `d / 100`.
proof fn lemma_shift_votes(
    stored: Seq<Fingerprint>,
    query: Seq<Fingerprint>,
    idx: Seq<int>,
    d: u64,
    si: int,
    qi: int,
)
    requires
        idx.len() == stored.len(),
        forall|i: int| 0 <= i < stored.len() ==> 0 <= #[trigger] idx[i] < query.len(),
        forall|i: int|
            0 <= i < stored.len() ==> (#[trigger] stored[i]).hash == query[idx[i]].hash,
        forall|i: int|
            0 <= i < stored.len() ==> (#[trigger] stored[i]).time_offset == query[idx[i]].time_offset
                + d,
        forall|j1: int, j2: int|
            0 <= j1 < j2 < query.len() ==> (#[trigger] query[j1]).hash != (
            #[trigger] query[j2]).hash,
        0 <= si,
        0 <= qi,
    ensures
        spec_votes(stored, query, si, qi) =~= Seq::new(
            shift_votes_left(stored.len() as int, idx, si, qi) as nat,
            |x: int| (d / 100) as i64,
        ),
    decreases stored.len() - si, query.len() - qi,
{
    let b0 = (d / 100) as i64;
    if si >= stored.len() {
    } else if qi >= query.len() {
        lemma_shift_votes(stored, query, idx, d, si + 1, 0);
    } else {
        lemma_shift_votes(stored, query, idx, d, si, qi + 1);
        if qi == idx[si] {
            assert(stored[si].hash == query[qi].hash);
            assert(stored[si].time_offset - query[qi].time_offset == d);
            vstd::arithmetic::div_mod::lemma_div_pos_is_pos(d as int, 100);
            assert(spec_offset_bucket(stored[si].time_offset, query[qi].time_offset) == d as int
                / 100);
        } else {
            if qi < idx[si] {
                assert(query[qi].hash != query[idx[si]].hash);
            } else {
                assert(query[idx[si]].hash != query[qi].hash);
            }
            assert(stored[si].hash != query[qi].hash);
        }
    }
}

/// In a constant vote run, every prefix count of the one bucket is the
/// prefix's length and that bucket leads.
proof fn lemma_constant_votes_best(v: Seq<i64>, b0: i64, k: int)
    requires
        0 <= k <= v.len(),
        forall|x: int| 0 <= x < v.len() ==> #[trigger] v[x] == b0,
    ensures
        hist_count(v, k, b0) == k,
        k > 0 ==> spec_best_bucket(v, k) == (b0, k),
    decreases k,
{
    if k > 0 {
        lemma_constant_votes_best(v, b0, k - 1);
        if k == 1 {
            assert(spec_best_bucket(v, 0) == (0i64, 0int));
            assert(hist_count(v, 0, b0) == 0);
        }
    }
}

/// A candidate whose stored fingerprints each copy one query fingerprint with
/// a constant time shift `d` matches at that shift: every stored fingerprint
/// casts one vote, all in the bucket `d / 100` tenths of a second, so the
/// match reports their full count, the shift quantized to its bucket, and a
/// confidence of count over query size - provided the count reaches three and
/// more than a twentieth of the query.
pub proof fn lemma_constant_shift_match(
    song_id: i64,
    stored: Seq<Fingerprint>,
    query: Seq<Fingerprint>,
    idx: Seq<int>,
    d: u64,
)
    requires
        idx.len() == stored.len(),
        forall|i: int| 0 <= i < stored.len() ==> 0 <= #[trigger] idx[i] < query.len(),
        forall|i: int|
            0 <= i < stored.len() ==> (#[trigger] stored[i]).hash == query[idx[i]].hash,
        forall|i: int|
            0 <= i < stored.len() ==> (#[trigger] stored[i]).time_offset == query[idx[i]].time_offset
                + d,
        forall|j1: int, j2: int|
            0 <= j1 < j2 < query.len() ==> (#[trigger] query[j1]).hash != (
            #[trigger] query[j2]).hash,
        d < 0x1000_0000_0000_0000,
        stored.len() >= 3,
        20 * stored.len() > query.len(),
    ensures
        spec_song_match(song_id, stored, query) == Some(
            MatchResult {
                song_id,
                confidence: (stored.len() as int * 1000 / query.len() as int) as u64,
                matched_count: stored.len() as u64,
                time_offset: ((d / 100) * 100) as i64,
            },
        ),
{
    let b0 = (d / 100) as i64;
    let m = stored.len() as int;
    lemma_shift_votes(stored, query, idx, d, 0, 0);
    let votes = spec_votes(stored, query, 0, 0);
    assert(votes =~= Seq::new(m as nat, |x: int| b0));
    lemma_constant_votes_best(votes, b0, m);
    assert(spec_best_bucket(votes, m) == (b0, m));
    vstd::arithmetic::div_mod::lemma_div_pos_is_pos(d as int, 100);
    vstd::arithmetic::div_mod::lemma_multiply_divide_lt(d as int, 100, 0x40_0000_0000_0000);
    assert((b0 as int) * 100 == (d / 100) as int * 100);
}

/// Inserts a result before the first one with no more matches than it, so an
/// earlier result precedes later results of equal count.
pub open spec fn insert_result_desc(m: MatchResult, s: Seq<MatchResult>) -> Seq<MatchResult>
    decreases s.len(),
{
    if s.len() == 0 {
        seq![m]
    } else if m.matched_count >= s[0].matched_count {
        seq![m] + s
    } else {
        seq![s[0]] + insert_result_desc(m, s.drop_first())
    }
}

/// The stable sort of results by matched count descending. As every result of
/// one matching run divides its count by the same query total, this is
/// exactly the order of descending confidence.
pub open spec fn sort_results_desc_spec(s: Seq<MatchResult>) -> Seq<MatchResult>
    decreases s.len(),
{
    if s.len() == 0 {
        Seq::empty()
    } else {
        insert_result_desc(s[0], sort_results_desc_spec(s.drop_first()))
    }
}

/// Where `insert_result_desc` lands its element.
proof fn lemma_insert_result_at(m: MatchResult, s: Seq<MatchResult>, j: int)
    requires
        0 <= j <= s.len(),
        forall|k: int| 0 <= k < j ==> s[k].matched_count > m.matched_count,
        j < s.len() ==> m.matched_count >= s[j].matched_count,
    ensures
        insert_result_desc(m, s) == s.subrange(0, j) + seq![m] + s.subrange(j, s.len() as int),
    decreases j,
{
    if j == 0 {
        if s.len() == 0 {
            assert(insert_result_desc(m, s) =~= s.subrange(0, 0) + seq![m] + s.subrange(0, 0));
        } else {
            assert(insert_result_desc(m, s) =~= s.subrange(0, 0) + seq![m] + s.subrange(
                0,
                s.len() as int,
            ));
        }
    } else {
        let rest = s.drop_first();
        assert(forall|k: int| 0 <= k < j - 1 ==> rest[k].matched_count > m.matched_count);
        lemma_insert_result_at(m, rest, j - 1);
        assert(seq![s[0]] + (rest.subrange(0, j - 1) + seq![m] + rest.subrange(
            j - 1,
            rest.len() as int,
        )) =~= s.subrange(0, j) + seq![m] + s.subrange(j, s.len() as int));
    }
}

/// Inserts one result into a sorted vector at its stable position.
fn insert_result(out: Vec<MatchResult>, m: MatchResult) -> (r: Vec<MatchResult>)
    ensures
        r@ == insert_result_desc(m, out@),
{
    let mut j: usize = 0;
    loop
        invariant_except_break
            j <= out@.len(),
            forall|k: int| 0 <= k < j ==> out@[k].matched_count > m.matched_count,
        ensures
            j <= out@.len(),
            forall|k: int| 0 <= k < j ==> out@[k].matched_count > m.matched_count,
            j < out@.len() ==> m.matched_count >= out@[j as int].matched_count,
        decreases out@.len() - j,
    {
        if j == out.len() {
            break ;
        }
        if out[j].matched_count <= m.matched_count {
            break ;
        }
        j = j + 1;
    }
    let ghost s = out@;
    let mut v = out;
    v.insert(j, m);
    proof {
        lemma_insert_result_at(m, s, j as int);
        assert(s.insert(j as int, m) =~= s.subrange(0, j as int) + seq![m] + s.subrange(
            j as int,
            s.len() as int,
        ));
    }
    v
}

/// Sorts results by matched count (hence confidence) descending, stable.
fn sort_results_desc(results: &Vec<MatchResult>) -> (r: Vec<MatchResult>)
    ensures
        r@ == sort_results_desc_spec(results@),
{
    let mut out: Vec<MatchResult> = Vec::new();
    let mut i: usize = results.len();
    while i > 0
        invariant
            i <= results@.len(),
            out@ == sort_results_desc_spec(results@.subrange(i as int, results@.len() as int)),
        decreases i,
    {
        i = i - 1;
        let ghost sub = results@.subrange(i as int, results@.len() as int);
        out = insert_result(out, results[i]);
        proof {
            assert(sub[0] == results@[i as int]);
            assert(sub.drop_first() =~= results@.subrange(i as int + 1, results@.len() as int));
        }
    }
    proof {
        assert(results@.subrange(0, results@.len() as int) =~= results@);
    }
    out
}

/// The surviving per-song matches, in candidate order, before ranking.
pub open spec fn spec_matches_from(
    query: Seq<Fingerprint>,
    cands: Seq<(i64, Vec<Fingerprint>)>,
    k: int,
) -> Seq<MatchResult>
    decreases cands.len() - k
        when 0 <= k
{
    if k >= cands.len() {
        Seq::empty()
    } else {
        let here = match spec_song_match(cands[k].0, cands[k].1@, query) {
            Some(m) => seq![m],
            None => Seq::empty(),
        };
        here + spec_matches_from(query, cands, k + 1)
    }
}

/// The ranked matches of a query against its candidate songs.
pub open spec fn spec_match_fingerprints(
    query: Seq<Fingerprint>,
    cands: Seq<(i64, Vec<Fingerprint>)>,
) -> Seq<MatchResult> {
    sort_results_desc_spec(spec_matches_from(query, cands, 0))
}

/// Every candidate's fingerprint list is of matchable size with bounded
/// times.
pub open spec fn candidates_wf(cands: Seq<(i64, Vec<Fingerprint>)>) -> bool {
    forall|k: int|
        0 <= k < cands.len() ==> (#[trigger] cands[k]).1@.len() <= 0x7fff_ffff && times_bounded(
            cands[k].1@,
        )
}

/// Matches the query's fingerprints against each candidate song's stored
/// fingerprints (already filtered to hash matches by the catalog store) and
/// ranks the surviving songs by confidence descending, stable for ties.
pub fn match_fingerprints(
    query: &Vec<Fingerprint>,
    candidates: &Vec<(i64, Vec<Fingerprint>)>,
) -> (r: Vec<MatchResult>)
    requires
        query@.len() <= 0x7fff_ffff,
        times_bounded(query@),
        candidates_wf(candidates@),
    ensures
        r@ == spec_match_fingerprints(query@, candidates@),
{
    let mut results: Vec<MatchResult> = Vec::new();
    let n = candidates.len();
    let mut k: usize = 0;
    while k < n
        invariant
            query@.len() <= 0x7fff_ffff,
            times_bounded(query@),
            candidates_wf(candidates@),
            n == candidates@.len(),
            k <= n,
            spec_matches_from(query@, candidates@, 0) == results@ + spec_matches_from(
                query@,
                candidates@,
                k as int,
            ),
        decreases n - k,
    {
        let ghost before = results@;
        let song_id = candidates[k].0;
        match song_match(song_id, &candidates[k].1, query) {
            Some(m) => {
                results.push(m);
                proof {
                    assert(before + (seq![m] + spec_matches_from(
                        query@,
                        candidates@,
                        k as int + 1,
                    )) =~= results@ + spec_matches_from(query@, candidates@, k as int + 1));
                }
            },
            None => {},
        }
        k = k + 1;
    }
    sort_results_desc(&results)
}

} // verus!
