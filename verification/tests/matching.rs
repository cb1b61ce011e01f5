use tunefind::fingerprint::Fingerprint;
use tunefind::matcher::{MatchResult, match_fingerprints, song_match};

fn fp(hash: i64, time_offset: u64) -> Fingerprint {
    Fingerprint {
        hash,
        time_offset,
        confidence: 5000,
        anchor_freq: 44000,
        target_freq: 88000,
        delta_t: 200,
    }
}

#[test]
fn a_constant_shift_is_recovered_from_the_histogram() {
    // Four query fingerprints; the stored copies sit exactly 2.0 s later.
    let query = vec![fp(11, 0), fp(22, 100), fp(33, 200), fp(44, 300)];
    let stored = vec![fp(11, 2000), fp(22, 2100), fp(33, 2200), fp(44, 2300)];
    let results = match_fingerprints(&query, &vec![(7, stored)]);
    assert_eq!(results.len(), 1);
    assert_eq!(
        results[0],
        MatchResult { song_id: 7, confidence: 1000, matched_count: 4, time_offset: 2000 }
    );
}

#[test]
fn confidence_is_the_bucket_share_of_the_query() {
    // Ten query fingerprints, four of them matched at one offset.
    let query: Vec<Fingerprint> = (0..10).map(|i| fp(i, 100 * i as u64)).collect();
    let stored: Vec<Fingerprint> = (0..4).map(|i| fp(i, 100 * i as u64 + 500)).collect();
    let results = match_fingerprints(&query, &vec![(1, stored)]);
    assert_eq!(results.len(), 1);
    assert_eq!(results[0].matched_count, 4);
    assert_eq!(results[0].confidence, 400);
    assert_eq!(results[0].time_offset, 500);
}

#[test]
fn fewer_than_three_bucket_votes_never_match() {
    let query = vec![fp(11, 0), fp(22, 100), fp(33, 200)];
    let stored = vec![fp(11, 1000), fp(22, 1100)];
    assert!(song_match(5, &stored, &query).is_none());
}

#[test]
fn a_twentieth_share_is_not_enough() {
    // 100 query fingerprints; 4 matched votes give 0.04, below the 0.05 bar.
    let query: Vec<Fingerprint> = (0..100).map(|i| fp(i, 100 * i as u64)).collect();
    let dropped: Vec<Fingerprint> = (0..4).map(|i| fp(i, 100 * i as u64)).collect();
    assert!(song_match(5, &dropped, &query).is_none());
    // 6 votes give 0.06, above it.
    let kept: Vec<Fingerprint> = (0..6).map(|i| fp(i, 100 * i as u64)).collect();
    let m = song_match(5, &kept, &query).unwrap();
    assert_eq!(m.matched_count, 6);
    assert_eq!(m.confidence, 60);
}

#[test]
fn results_rank_by_confidence_descending() {
    let query: Vec<Fingerprint> = (0..100).map(|i| fp(i, 100 * i as u64)).collect();
    let weaker: Vec<Fingerprint> = (0..6).map(|i| fp(i, 100 * i as u64)).collect();
    let stronger: Vec<Fingerprint> = (0..9).map(|i| fp(i, 100 * i as u64)).collect();
    let results = match_fingerprints(&query, &vec![(1, weaker), (2, stronger)]);
    assert_eq!(results.len(), 2);
    assert_eq!(results[0].song_id, 2);
    assert_eq!(results[1].song_id, 1);
}

#[test]
fn offsets_bucket_toward_zero_in_tenths() {
    // Offset of -250 ms lands in bucket -2 (toward zero), so -200 ms.
    let query = vec![fp(1, 1000), fp(2, 1000), fp(3, 1000)];
    let stored = vec![fp(1, 750), fp(2, 750), fp(3, 750)];
    let m = song_match(9, &stored, &query).unwrap();
    assert_eq!(m.time_offset, -200);
    assert_eq!(m.matched_count, 3);
}

#[test]
fn the_first_bucket_to_reach_a_maximum_wins_ties() {
    // Two buckets with three votes each: bucket 10 (1000 ms) fills first.
    let query = vec![fp(1, 0), fp(2, 0), fp(3, 0), fp(4, 0), fp(5, 0), fp(6, 0)];
    let stored = vec![
        fp(1, 1000),
        fp(2, 1000),
        fp(3, 1000),
        fp(4, 2000),
        fp(5, 2000),
        fp(6, 2000),
    ];
    let m = song_match(3, &stored, &query).unwrap();
    assert_eq!(m.time_offset, 1000);
    assert_eq!(m.matched_count, 3);
}

#[test]
fn no_candidates_no_matches() {
    let query = vec![fp(1, 0)];
    let results = match_fingerprints(&query, &vec![]);
    assert!(results.is_empty());
}
