//! An acoustic-fingerprinting engine: it conditions a PCM clip to a
//! band-limited mono signal, extracts a constellation of spectral peaks,
//! derives compact hash fingerprints from peak pairs, and matches a query's
//! fingerprints against a catalog by time-offset voting.
//!
//! All quantities are fixed-point integers so that every arithmetic step is
//! exact and verified: frequencies in centi-hertz, times in milliseconds,
//! magnitudes and confidences in hundredths of the 0-100 scale.

pub mod api;
pub mod catalog;
pub mod conditioner;
pub mod constellation;
pub mod config;
pub mod domain;
pub mod error_report;
pub mod fingerprint;
pub mod matcher;
pub mod numeric;
pub mod sorting;
