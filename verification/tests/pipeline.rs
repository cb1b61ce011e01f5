use tunefind::conditioner::BandpassFilterMonoSource;
use tunefind::constellation::{
    ConstellationPoint, constellation_points, hamming_window, significant_peaks,
};
use tunefind::fingerprint::{fingerprint_source, generate_fingerprints, strongest_point};
use tunefind::sorting::sort_points_desc;

#[test]
fn filter_applies_both_stages_exactly() {
    // Mono input at the target rate: no decimation, filter arithmetic only.
    // hp = 98 * (hp' + x - x') / 100, lp = (20 * hp + 80 * lp') / 100.
    let mut src = BandpassFilterMonoSource::new(vec![1000, 1000], 1, 11025, 11025);
    let out = src.collect_conditioned();
    assert_eq!(out, vec![196, 348]);
}

#[test]
fn frames_are_averaged_and_decimated() {
    // Stereo at rate 4 downsampled to 2: each output takes two frames and
    // averages the channels of the second.
    let mut src = BandpassFilterMonoSource::new(vec![100, 200, 300, 400, 500, 600, 700, 800], 2, 4, 2);
    let out = src.collect_conditioned();
    assert_eq!(out, vec![68, 200]);
}

#[test]
fn negative_samples_truncate_toward_zero() {
    let mut src = BandpassFilterMonoSource::new(vec![-1000], 1, 8000, 8000);
    let out = src.collect_conditioned();
    assert_eq!(out, vec![-196]);
}

#[test]
fn a_partial_trailing_block_is_dropped() {
    // Ratio 3: seven samples yield two outputs, the seventh is discarded.
    let mut src = BandpassFilterMonoSource::new(vec![0, 0, 10, 0, 0, 10, 10], 1, 9, 3);
    let out = src.collect_conditioned();
    assert_eq!(out.len(), 2);
}

#[test]
fn a_single_parabolic_bump_yields_exactly_one_peak() {
    // One wide strict bump centered on bin 20 of a 100-bin spectrum at
    // 11025 Hz: bin 20 is 2205 Hz, inside the passband.
    let mut spectrum = vec![0u64; 100];
    let bump = [10u64, 20, 30, 40, 50, 40, 30, 20, 10];
    for (k, &v) in bump.iter().enumerate() {
        spectrum[16 + k] = v;
    }
    let peaks = significant_peaks(&spectrum, 11025, 0, 2048);
    assert_eq!(peaks.len(), 1);
    assert_eq!(peaks[0].frequency, 220_500);
    assert_eq!(peaks[0].magnitude, 10_000);
    assert_eq!(peaks[0].time, 0);
}

#[test]
fn magnitudes_normalize_against_the_chunk_maximum() {
    let mut spectrum = vec![0u64; 100];
    // The chunk maximum, at bin 20.
    for (k, &v) in [10u64, 20, 30, 40, 50, 40, 30, 20, 10].iter().enumerate() {
        spectrum[16 + k] = v;
    }
    // A weaker peak at bin 40.
    for (k, &v) in [4u64, 8, 12, 8, 4].iter().enumerate() {
        spectrum[38 + k] = v;
    }
    let peaks = significant_peaks(&spectrum, 11025, 0, 2048);
    assert_eq!(peaks.len(), 2);
    for p in &peaks {
        assert!(p.magnitude <= 10_000);
    }
    // The maximum itself normalizes to exactly 100.
    assert_eq!(peaks[0].magnitude, 10_000);
    assert_eq!(peaks[1].magnitude, 2_400);
    assert_eq!(peaks[1].frequency, 441_000);
}

#[test]
fn peaks_outside_the_passband_are_dropped() {
    // A strict bump at bin 60 of a 100-bin spectrum at 11025 Hz: 6615 Hz,
    // above the 5 kHz cutoff.
    let mut spectrum = vec![0u64; 100];
    for (k, &v) in [10u64, 20, 30, 20, 10].iter().enumerate() {
        spectrum[58 + k] = v;
    }
    let peaks = significant_peaks(&spectrum, 11025, 0, 2048);
    assert!(peaks.is_empty());
}

#[test]
fn at_most_four_peaks_survive_per_chunk() {
    let mut spectrum = vec![0u64; 200];
    // Six strict bumps of distinct heights, all inside the passband.
    for (i, height) in [30u64, 60, 90, 50, 70, 40].iter().enumerate() {
        let base = 10 + 8 * i;
        spectrum[base] = height / 3;
        spectrum[base + 1] = height / 2;
        spectrum[base + 2] = *height;
        spectrum[base + 3] = height / 2;
        spectrum[base + 4] = height / 3;
    }
    let peaks = significant_peaks(&spectrum, 11025, 0, 2048);
    assert_eq!(peaks.len(), 4);
    // Magnitude-descending order: 90, 70, 60, 50 scaled by 10000/90.
    assert!(peaks[0].magnitude >= peaks[1].magnitude);
    assert!(peaks[1].magnitude >= peaks[2].magnitude);
    assert!(peaks[2].magnitude >= peaks[3].magnitude);
    assert_eq!(peaks[0].magnitude, 10_000);
}

#[test]
fn chunk_times_step_by_the_hop_size() {
    let mut spectrum = vec![0u64; 100];
    for (k, &v) in [10u64, 20, 30, 20, 10].iter().enumerate() {
        spectrum[18 + k] = v;
    }
    // Chunk 3 at 11025 Hz with a 2048-sample hop starts at 557 ms.
    let peaks = significant_peaks(&spectrum, 11025, 3, 2048);
    assert_eq!(peaks.len(), 1);
    assert_eq!(peaks[0].time, 3 * 2048 * 1000 / 11025);
}

#[test]
fn sorting_points_is_stable_for_equal_magnitudes() {
    let p = |frequency: u64, magnitude: u64| ConstellationPoint { time: 0, frequency, magnitude };
    let pts = vec![p(100, 5), p(200, 7), p(300, 5)];
    let sorted = sort_points_desc(&pts);
    assert_eq!(sorted[0].frequency, 200);
    assert_eq!(sorted[1].frequency, 100);
    assert_eq!(sorted[2].frequency, 300);
}

#[test]
fn the_strongest_point_is_the_last_maximum() {
    let p = |frequency: u64, magnitude: u64| ConstellationPoint { time: 0, frequency, magnitude };
    let pts = vec![p(1, 5), p(2, 7), p(3, 7)];
    assert_eq!(strongest_point(&pts).frequency, 3);
}

#[test]
fn the_hamming_window_spans_its_nominal_range() {
    let w = hamming_window(4096);
    assert_eq!(w.len(), 4096);
    // cos(0) = 1 exactly: 0.54 - 0.46 = 0.08.
    assert_eq!(w[0], 800);
    // The window center approaches 1.0.
    assert!(w[2048] >= 9_990);
    // And the window is symmetric up to fixed-point truncation.
    assert!((w[1] - w[4094]).abs() <= 1);
}

#[test]
fn a_pure_tone_leaves_a_peak_near_its_frequency() {
    // 3 s of a 440 Hz sine at 44.1 kHz, conditioned to 11025 Hz.
    let samples = tone(&[(440.0, 3.0)], 44100);
    let src = BandpassFilterMonoSource::new(samples, 1, 44100, 11025);
    let points = constellation_points(src);
    assert!(points.len() > 10);
    let mut near = 0;
    for chunk in &points {
        for p in chunk {
            if p.frequency > 42_000 && p.frequency < 46_000 {
                near += 1;
            }
        }
    }
    assert!(near > 10);
}

fn tone(segments: &[(f64, f64)], rate: u32) -> Vec<i16> {
    let mut out = Vec::new();
    for &(freq, seconds) in segments {
        let n = (seconds * rate as f64) as usize;
        for k in 0..n {
            let t = k as f64 / rate as f64;
            let v = 0.4 * 32767.0 * (2.0 * std::f64::consts::PI * freq * t).sin();
            out.push(v as i16);
        }
    }
    out
}

fn fingerprints_of(samples: Vec<i16>) -> Vec<tunefind::fingerprint::Fingerprint> {
    let src = BandpassFilterMonoSource::new(samples, 1, 44100, 11025);
    fingerprint_source(src)
}

#[test]
fn the_composed_pipeline_equals_its_stages() {
    let samples = tone(&[(440.0, 2.0)], 44100);
    let via_stages = {
        let src = BandpassFilterMonoSource::new(samples.clone(), 1, 44100, 11025);
        let points = constellation_points(src);
        generate_fingerprints(&points)
    };
    let composed = fingerprints_of(samples);
    assert_eq!(via_stages, composed);
}

#[test]
fn a_slice_of_a_catalog_clip_matches_at_its_offset() {
    // An aperiodic tone sequence, 10 s in all; the query is the 3 s slice
    // starting at 2.04 s - eleven analysis hops (11 * 2048 samples at the
    // 11025 Hz target rate), so the expected offset sits squarely in one
    // tenth-of-a-second bucket.
    let segments = [
        (440.0, 1.0),
        (880.0, 1.0),
        (440.0, 2.0),
        (880.0, 1.0),
        (440.0, 1.0),
        (880.0, 3.0),
        (440.0, 1.0),
    ];
    let catalog_samples = tone(&segments, 44100);
    let start = 11 * 2048 * 4;
    let query_samples = catalog_samples[start..start + 3 * 44100].to_vec();

    let catalog_fps = fingerprints_of(catalog_samples);
    let query_fps = fingerprints_of(query_samples);
    assert!(catalog_fps.len() >= 3);
    assert!(query_fps.len() >= 3);

    let mut store = tunefind::catalog::Catalog::new();
    let info = tunefind::catalog::SongInfo {
        title: "Octave Steps".to_string(),
        artist: "Oscillator".to_string(),
    };
    store.insert_song_fingerprints(info, 10_000, catalog_fps);

    let hashes: Vec<i64> = query_fps.iter().map(|f| f.hash).collect();
    let candidates = store.lookup_by_hash(&hashes);
    let results = tunefind::matcher::match_fingerprints(&query_fps, &candidates);

    assert!(!results.is_empty());
    let best = &results[0];
    assert_eq!(best.song_id, 1);
    assert!(best.matched_count >= 3);
    assert!(best.confidence > 50);
    assert!(best.time_offset >= 1900 && best.time_offset <= 2100);
}

#[test]
fn white_noise_does_not_match_an_unrelated_catalog() {
    let segments = [(440.0, 5.0), (880.0, 5.0)];
    let catalog_fps = fingerprints_of(tone(&segments, 44100));

    // 3 s of pseudo-random noise from a fixed linear congruential generator.
    let mut state: u64 = 0x2545_f491_4f6c_dd1d;
    let mut noise: Vec<i16> = Vec::new();
    for _ in 0..3 * 44100 {
        state = state.wrapping_mul(6364136223846793005).wrapping_add(1442695040888963407);
        noise.push((state >> 48) as i16);
    }
    let noise_fps = fingerprints_of(noise);

    let mut store = tunefind::catalog::Catalog::new();
    let info = tunefind::catalog::SongInfo {
        title: "Tones".to_string(),
        artist: "Oscillator".to_string(),
    };
    store.insert_song_fingerprints(info, 10_000, catalog_fps);

    let hashes: Vec<i64> = noise_fps.iter().map(|f| f.hash).collect();
    let candidates = store.lookup_by_hash(&hashes);
    let results = tunefind::matcher::match_fingerprints(&noise_fps, &candidates);
    for r in &results {
        assert!(r.confidence <= 50);
    }
}
