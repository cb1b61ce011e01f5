use tunefind::fingerprint::{
    Fingerprint, confidence, is_harmonically_related, quantize_frequency,
};
use tunefind::numeric::isqrt;

#[test]
fn quantization_uses_adaptive_bins() {
    // 0 stays 0; below 300 Hz the bins are 5 Hz (500 centi-hertz).
    assert_eq!(quantize_frequency(0), 0);
    assert_eq!(quantize_frequency(1000), 2); // 10 Hz -> bin 2
    assert_eq!(quantize_frequency(29999), 60); // 299.99 Hz -> bin 60
    // 300..1000 Hz: 10 Hz bins.
    assert_eq!(quantize_frequency(30000), 30); // 300 Hz -> bin 30
    assert_eq!(quantize_frequency(44000), 44); // 440 Hz -> bin 44
    // 1000 Hz and up: 20 Hz bins.
    assert_eq!(quantize_frequency(100000), 50); // 1000 Hz -> bin 50
    assert_eq!(quantize_frequency(440000), 220); // 4400 Hz -> bin 220
}

#[test]
fn quantization_rounds_halves_to_even() {
    // 2.5 Hz sits between bins 0 and 1: to the even bin 0.
    assert_eq!(quantize_frequency(250), 0);
    // 7.5 Hz sits between bins 1 and 2: to the even bin 2.
    assert_eq!(quantize_frequency(750), 2);
    // 305 Hz between 10 Hz bins 30 and 31: to 30.
    assert_eq!(quantize_frequency(30500), 30);
    // 315 Hz between 31 and 32: to 32.
    assert_eq!(quantize_frequency(31500), 32);
    // 1010 Hz between 20 Hz bins 50 and 51: to 50.
    assert_eq!(quantize_frequency(101000), 50);
    // 1030 Hz between 51 and 52: to 52.
    assert_eq!(quantize_frequency(103000), 52);
}

#[test]
fn quantization_is_monotone_within_a_band() {
    let mut prev = 0;
    for chz in (2000..30000).step_by(7) {
        let q = quantize_frequency(chz);
        assert!(q >= prev);
        prev = q;
    }
    let mut prev = 0;
    for chz in (30000..100000).step_by(13) {
        let q = quantize_frequency(chz);
        assert!(q >= prev);
        prev = q;
    }
}

#[test]
fn hashing_is_deterministic_after_quantization() {
    let h1 = Fingerprint::hash_of(44000, 88000, 1005);
    let h2 = Fingerprint::hash_of(44000, 88000, 1005);
    assert_eq!(h1, h2);
    // Same quantized triple, different raw values: 44004 rounds into the same
    // 10 Hz bin and 1001 ms truncates into the same hundredth of a second.
    let h3 = Fingerprint::hash_of(44004, 88004, 1001);
    assert_eq!(h1, h3);
}

#[test]
fn changing_any_hash_input_changes_the_hash() {
    let base = Fingerprint::hash_of(44000, 88000, 1000);
    assert_ne!(base, Fingerprint::hash_of(50000, 88000, 1000));
    assert_ne!(base, Fingerprint::hash_of(44000, 90000, 1000));
    assert_ne!(base, Fingerprint::hash_of(44000, 88000, 1500));
}

#[test]
fn harmonic_relatedness_accepts_musical_intervals() {
    // Unison, perfect fifth, octave.
    assert!(is_harmonically_related(44000, 44000));
    assert!(is_harmonically_related(44000, 66000));
    assert!(is_harmonically_related(44000, 88000));
    // A perfect fourth, either way round.
    assert!(is_harmonically_related(58650, 44000));
    // Within the 0.05 tolerance of a minor third (ratio 1.2273 vs 1.2).
    assert!(is_harmonically_related(44000, 54000));
}

#[test]
fn harmonic_relatedness_rejects_unrelated_frequencies() {
    // Ratio 4.55: no interval within tolerance, and 3560 cHz apart.
    assert!(!is_harmonically_related(200000, 44000));
    // Ratio 1.409: between a fourth (1.333) and a fifth (1.5).
    assert!(!is_harmonically_related(44000, 62000));
}

#[test]
fn nearby_frequencies_are_related_by_the_absolute_fallback() {
    // 20 Hz vs 39 Hz: every interval ratio misses, but they lie within the
    // 20 Hz band-distance fallback.
    assert!(is_harmonically_related(2000, 3900));
    // 20 Hz vs 40.5 Hz: ratio 2.025 is within 0.05 of the octave.
    assert!(is_harmonically_related(2000, 4050));
}

#[test]
fn confidence_is_the_root_of_the_magnitude_product() {
    assert_eq!(confidence(10000, 10000), 10000);
    assert_eq!(confidence(4000, 4000), 4000);
    assert_eq!(confidence(0, 9000), 0);
    // sqrt(5000 * 2000) = sqrt(10_000_000) = 3162.27..., truncated.
    assert_eq!(confidence(5000, 2000), 3162);
}

#[test]
fn integer_square_root_is_exact() {
    assert_eq!(isqrt(0), 0);
    assert_eq!(isqrt(15), 3);
    assert_eq!(isqrt(16), 4);
    assert_eq!(isqrt(100_000_000), 10000);
    assert_eq!(isqrt(u64::MAX), 0xffff_ffff);
}
