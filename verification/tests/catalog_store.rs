use tunefind::catalog::{Catalog, SongInfo};
use tunefind::fingerprint::Fingerprint;

fn fp(hash: i64) -> Fingerprint {
    Fingerprint {
        hash,
        time_offset: 0,
        confidence: 5000,
        anchor_freq: 44000,
        target_freq: 88000,
        delta_t: 200,
    }
}

fn info(title: &str, artist: &str) -> SongInfo {
    SongInfo { title: title.to_string(), artist: artist.to_string() }
}

#[test]
fn inserting_the_same_key_twice_returns_the_same_id() {
    let mut catalog = Catalog::new();
    let id1 = catalog.insert_song_fingerprints(info("Song", "Artist"), 10_000, vec![fp(1), fp(2)]);
    let id2 = catalog.insert_song_fingerprints(info("Song", "Artist"), 12_000, vec![fp(3), fp(4)]);
    assert_eq!(id1, 1);
    assert_eq!(id2, id1);
    // Nothing was duplicated: one record, still the first two rows.
    assert_eq!(catalog.songs.len(), 1);
    assert_eq!(catalog.songs[0].fingerprints.len(), 2);
    assert_eq!(catalog.songs[0].duration_ms, 10_000);
}

#[test]
fn distinct_keys_get_dense_ids() {
    let mut catalog = Catalog::new();
    let id1 = catalog.insert_song_fingerprints(info("One", "A"), 1000, vec![fp(1)]);
    let id2 = catalog.insert_song_fingerprints(info("Two", "A"), 2000, vec![fp(2)]);
    let id3 = catalog.insert_song_fingerprints(info("One", "B"), 3000, vec![fp(3)]);
    assert_eq!((id1, id2, id3), (1, 2, 3));
    assert_eq!(catalog.song_exists(&"Two".to_string(), &"A".to_string()), Some(2));
    assert_eq!(catalog.song_exists(&"Two".to_string(), &"B".to_string()), None);
}

#[test]
fn hash_lookup_groups_matching_rows_by_song() {
    let mut catalog = Catalog::new();
    catalog.insert_song_fingerprints(info("One", "A"), 1000, vec![fp(5), fp(6)]);
    catalog.insert_song_fingerprints(info("Two", "A"), 2000, vec![fp(6), fp(7)]);
    let hits = catalog.lookup_by_hash(&vec![6]);
    assert_eq!(hits.len(), 2);
    assert_eq!(hits[0].0, 1);
    assert_eq!(hits[0].1.len(), 1);
    assert_eq!(hits[0].1[0].hash, 6);
    assert_eq!(hits[1].0, 2);
    assert_eq!(hits[1].1.len(), 1);

    let none = catalog.lookup_by_hash(&vec![9]);
    assert!(none.is_empty());
}

#[test]
fn song_metadata_comes_back_for_known_ids_only() {
    let mut catalog = Catalog::new();
    catalog.insert_song_fingerprints(info("One", "A"), 1000, vec![fp(1)]);
    catalog.insert_song_fingerprints(info("Two", "B"), 2000, vec![fp(2)]);
    let rows = catalog.get_song_info(&vec![2, 99, 1]);
    assert_eq!(rows.len(), 2);
    assert_eq!(rows[0].0, 2);
    assert_eq!(rows[0].1.title, "Two");
    assert_eq!(rows[0].2, 2000);
    assert_eq!(rows[1].0, 1);
    assert_eq!(rows[1].1.artist, "A");
}

#[test]
fn repeated_ids_yield_one_row_each() {
    let mut catalog = Catalog::new();
    catalog.insert_song_fingerprints(info("One", "A"), 1000, vec![fp(1)]);
    let rows = catalog.get_song_info(&vec![1, 1, 1]);
    assert_eq!(rows.len(), 1);
    assert_eq!(rows[0].0, 1);
}
