//! An in-memory model of the catalog store: persisted `(song, fingerprint)`
//! rows keyed by an opaque song id assigned at insertion, with bulk lookup of
//! fingerprints by hash and of song metadata by id.
//!
//! Insertion is first-insert-wins: a song whose identifying key (title and
//! artist) is already present keeps its id and its stored fingerprints.

use vstd::prelude::*;

use crate::fingerprint::Fingerprint;

verus! {

/// A song's identifying metadata.
#[derive(Debug)]
pub struct SongInfo {
    pub title: String,
    pub artist: String,
}

impl SongInfo {
    /// A field-for-field copy.
    pub fn duplicate(&self) -> (r: SongInfo)
        ensures
            r.title@ == self.title@,
            r.artist@ == self.artist@,
    {
        SongInfo { title: self.title.clone(), artist: self.artist.clone() }
    }
}

/// One catalog row group: a song and its stored fingerprints.
#[derive(Debug)]
pub struct SongRecord {
    pub id: i64,
    pub info: SongInfo,
    pub duration_ms: u64,
    pub fingerprints: Vec<Fingerprint>,
}

/// The record's key equals the given title and artist.
pub open spec fn key_matches(r: SongRecord, title: Seq<char>, artist: Seq<char>) -> bool {
    r.info.title@ == title && r.info.artist@ == artist
}

/// The in-memory catalog: records in insertion order, ids dense from one.
#[derive(Debug)]
pub struct Catalog {
    pub songs: Vec<SongRecord>,
}

impl Catalog {
    /// Some record carries this identifying key.
    pub open spec fn spec_has_song(self, title: Seq<char>, artist: Seq<char>) -> bool {
        exists|j: int|
            0 <= j < self.songs@.len() && key_matches(#[trigger] self.songs@[j], title, artist)
    }

    /// The index of the record carrying this key.
    pub open spec fn spec_song_index(self, title: Seq<char>, artist: Seq<char>) -> int {
        choose|j: int|
            0 <= j < self.songs@.len() && key_matches(#[trigger] self.songs@[j], title, artist)
    }

    /// Record `j` holds id `j + 1`, and no identifying key repeats.
    pub open spec fn wf(self) -> bool {
        &&& self.songs@.len() <= 0x7fff_ffff
        &&& (forall|j: int|
            0 <= j < self.songs@.len() ==> (#[trigger] self.songs@[j]).id == j + 1)
        &&& (forall|j1: int, j2: int|
            0 <= j1 < j2 < self.songs@.len() ==> !((#[trigger] self.songs@[j1]).info.title@ == (
            #[trigger] self.songs@[j2]).info.title@ && self.songs@[j1].info.artist@
                == self.songs@[j2].info.artist@))
    }

    /// An empty catalog.
    pub fn new() -> (r: Catalog)
        ensures
            r.wf(),
            r.songs@.len() == 0,
    {
        Catalog { songs: Vec::new() }
    }

    /// The id of the song carrying this key, if present.
    pub fn song_exists(&self, title: &String, artist: &String) -> (r: Option<i64>)
        requires
            self.wf(),
        ensures
            match r {
                Some(id) => self.spec_has_song(title@, artist@) && id == self.songs@[self.spec_song_index(
                    title@,
                    artist@,
                )].id,
                None => !self.spec_has_song(title@, artist@),
            },
    {
        let n = self.songs.len();
        let mut j: usize = 0;
        while j < n
            invariant
                self.wf(),
                n == self.songs@.len(),
                j <= n,
                forall|k: int| 0 <= k < j ==> !key_matches(#[trigger] self.songs@[k], title@, artist@),
            decreases n - j,
        {
            if self.songs[j].info.title == *title && self.songs[j].info.artist == *artist {
                proof {
                    assert(key_matches(self.songs@[j as int], title@, artist@));
                    let w = self.spec_song_index(title@, artist@);
                    if w != j {
                        assert(!(self.songs@[w].info.title@ == self.songs@[j as int].info.title@
                            && self.songs@[w].info.artist@ == self.songs@[j as int].info.artist@));
                    }
                }
                return Some(self.songs[j].id);
            }
            j = j + 1;
        }
        None
    }
}

/// What inserting a song does to the catalog's records: an existing key keeps
/// the catalog unchanged and returns its id; a new key appends a record with
/// the next dense id.
pub open spec fn spec_insert(
    songs: Seq<SongRecord>,
    title: String,
    artist: String,
    duration_ms: u64,
    fingerprints: Vec<Fingerprint>,
) -> (Seq<SongRecord>, i64) {
    if exists|j: int| 0 <= j < songs.len() && key_matches(#[trigger] songs[j], title@, artist@) {
        let j = choose|j: int|
            0 <= j < songs.len() && key_matches(#[trigger] songs[j], title@, artist@);
        (songs, songs[j].id)
    } else {
        let id = songs.len() + 1;
        (
            songs.push(
                SongRecord { id: id as i64, info: SongInfo { title, artist }, duration_ms, fingerprints },
            ),
            id as i64,
        )
    }
}

impl Catalog {
    /// Stores a song with its fingerprints, idempotently on the identifying
    /// key: if the key is already present the existing id comes back and
    /// nothing is duplicated, else the song gets the next id.
    pub fn insert_song_fingerprints(
        &mut self,
        info: SongInfo,
        duration_ms: u64,
        fingerprints: Vec<Fingerprint>,
    ) -> (id: i64)
        requires
            old(self).wf(),
            old(self).songs@.len() < 0x7fff_ffff,
        ensures
            final(self).wf(),
            (final(self).songs@, id) == spec_insert(
                old(self).songs@,
                info.title,
                info.artist,
                duration_ms,
                fingerprints,
            ),
    {
        let existing = self.song_exists(&info.title, &info.artist);
        match existing {
            Some(id) => {
                proof {
                    let w = self.spec_song_index(info.title@, info.artist@);
                    let c = choose|j: int|
                        0 <= j < self.songs@.len() && key_matches(
                            #[trigger] self.songs@[j],
                            info.title@,
                            info.artist@,
                        );
                    if c != w {
                        assert(!(self.songs@[c].info.title@ == self.songs@[w].info.title@
                            && self.songs@[c].info.artist@ == self.songs@[w].info.artist@));
                    }
                }
                id
            },
            None => {
                let id = (self.songs.len() + 1) as i64;
                let record = SongRecord { id, info, duration_ms, fingerprints };
                self.songs.push(record);
                id
            },
        }
    }
}

/// The fingerprints of one record whose hash occurs among the query hashes,
/// from index `i` on, in stored order.
pub open spec fn spec_filter_fps(fps: Seq<Fingerprint>, hashes: Seq<i64>, i: int) -> Seq<
    Fingerprint,
>
    decreases fps.len() - i
        when 0 <= i
{
    if i >= fps.len() {
        Seq::empty()
    } else {
        let rest = spec_filter_fps(fps, hashes, i + 1);
        if hashes.contains(fps[i].hash) {
            seq![fps[i]] + rest
        } else {
            rest
        }
    }
}

/// The hash-lookup result from record `j` on: per song, in id order, its
/// stored fingerprints whose hash occurs in the query; songs with no match
/// are absent.
pub open spec fn spec_lookup(songs: Seq<SongRecord>, hashes: Seq<i64>, j: int) -> Seq<
    (i64, Seq<Fingerprint>),
>
    decreases songs.len() - j
        when 0 <= j
{
    if j >= songs.len() {
        Seq::empty()
    } else {
        let mine = spec_filter_fps(songs[j].fingerprints@, hashes, 0);
        let rest = spec_lookup(songs, hashes, j + 1);
        if mine.len() > 0 {
            seq![(songs[j].id, mine)] + rest
        } else {
            rest
        }
    }
}

impl Catalog {
    /// The stored fingerprints whose hash appears among the query's hashes,
    /// grouped by song in id order; songs with no matching row are absent.
    pub fn lookup_by_hash(&self, hashes: &Vec<i64>) -> (r: Vec<(i64, Vec<Fingerprint>)>)
        ensures
            ({
                let spec = spec_lookup(self.songs@, hashes@, 0);
                &&& r@.len() == spec.len()
                &&& forall|k: int|
                    0 <= k < r@.len() ==> (#[trigger] r@[k]).0 == spec[k].0 && r@[k].1@ == spec[k].1
            }),
    {
        let ghost spec = spec_lookup(self.songs@, hashes@, 0);
        let mut r: Vec<(i64, Vec<Fingerprint>)> = Vec::new();
        let n = self.songs.len();
        let mut j: usize = 0;
        while j < n
            invariant
                n == self.songs@.len(),
                j <= n,
                spec == spec_lookup(self.songs@, hashes@, 0),
                ({
                    let done = spec_lookup(self.songs@, hashes@, 0);
                    let todo = spec_lookup(self.songs@, hashes@, j as int);
                    &&& done.len() == r@.len() + todo.len()
                    &&& done =~= Seq::new(
                        r@.len(),
                        |k: int| (r@[k].0, r@[k].1@),
                    ) + todo
                }),
            decreases n - j,
        {
            let ghost before = r@;
            let fps = &self.songs[j].fingerprints;
            let m = fps.len();
            let mut mine: Vec<Fingerprint> = Vec::new();
            let mut i: usize = 0;
            while i < m
                invariant
                    m == fps@.len(),
                    i <= m,
                    fps@ == self.songs@[j as int].fingerprints@,
                    j < n,
                    n == self.songs@.len(),
                    spec_filter_fps(fps@, hashes@, 0) == mine@ + spec_filter_fps(
                        fps@,
                        hashes@,
                        i as int,
                    ),
                decreases m - i,
            {
                let ghost mine_before = mine@;
                let h = fps[i].hash;
                let mut found = false;
                let hn = hashes.len();
                let mut x: usize = 0;
                while x < hn
                    invariant
                        hn == hashes@.len(),
                        x <= hn,
                        found == exists|y: int| 0 <= y < x && hashes@[y] == h,
                    decreases hn - x,
                {
                    if hashes[x] == h {
                        found = true;
                        proof {
                            assert(hashes@[x as int] == h);
                        }
                    }
                    x = x + 1;
                }
                proof {
                    assert(found == hashes@.contains(h));
                }
                if found {
                    mine.push(fps[i]);
                    proof {
                        assert(mine_before + (seq![fps@[i as int]] + spec_filter_fps(
                            fps@,
                            hashes@,
                            i as int + 1,
                        )) =~= mine@ + spec_filter_fps(fps@, hashes@, i as int + 1));
                    }
                }
                i = i + 1;
            }
            proof {
                assert(mine@ + spec_filter_fps(fps@, hashes@, m as int) =~= mine@);
            }
            if mine.len() > 0 {
                let id = self.songs[j].id;
                r.push((id, mine));
            }
            proof {
                let todo_now = spec_lookup(self.songs@, hashes@, j as int);
                let todo_next = spec_lookup(self.songs@, hashes@, j as int + 1);
                let viewed = Seq::new(r@.len(), |k: int| (r@[k].0, r@[k].1@));
                let viewed_before = Seq::new(before.len(), |k: int| (before[k].0, before[k].1@));
                if spec_filter_fps(self.songs@[j as int].fingerprints@, hashes@, 0).len() > 0 {
                    assert(viewed =~= viewed_before + seq![
                        (
                            self.songs@[j as int].id,
                            spec_filter_fps(self.songs@[j as int].fingerprints@, hashes@, 0),
                        ),
                    ]);
                } else {
                    assert(viewed =~= viewed_before);
                }
                assert(spec_lookup(self.songs@, hashes@, 0) =~= viewed + todo_next);
            }
            j = j + 1;
        }
        proof {
            let viewed = Seq::new(r@.len(), |k: int| (r@[k].0, r@[k].1@));
            assert(spec_lookup(self.songs@, hashes@, 0) =~= viewed);
            assert forall|k: int| 0 <= k < r@.len() implies (#[trigger] r@[k]).0 == spec[k].0
                && r@[k].1@ == spec[k].1 by {
                assert(spec[k] == viewed[k]);
            }
        }
        r
    }

    /// The metadata of each id that names a stored song - title, artist, and
    /// duration in milliseconds - as a map from id to row: one row per
    /// distinct queried id that exists, ids never queried absent, unknown ids
    /// simply missing.
    pub fn get_song_info(&self, song_ids: &Vec<i64>) -> (r: Vec<(i64, SongInfo, u64)>)
        requires
            self.wf(),
        ensures
            r@.len() <= song_ids@.len(),
            forall|k: int|
                0 <= k < r@.len() ==> ({
                    let id = (#[trigger] r@[k]).0;
                    &&& 1 <= id <= self.songs@.len()
                    &&& song_ids@.contains(id)
                    &&& r@[k].1.title@ == self.songs@[id - 1].info.title@
                    &&& r@[k].1.artist@ == self.songs@[id - 1].info.artist@
                    &&& r@[k].2 == self.songs@[id - 1].duration_ms
                }),
            forall|k1: int, k2: int|
                0 <= k1 < k2 < r@.len() ==> (#[trigger] r@[k1]).0 != (#[trigger] r@[k2]).0,
            forall|x: int|
                0 <= x < song_ids@.len() && 1 <= #[trigger] song_ids@[x] <= self.songs@.len()
                    ==> exists|k: int| 0 <= k < r@.len() && (#[trigger] r@[k]).0 == song_ids@[x],
    {
        let mut r: Vec<(i64, SongInfo, u64)> = Vec::new();
        let n = song_ids.len();
        let mut x: usize = 0;
        while x < n
            invariant
                self.wf(),
                n == song_ids@.len(),
                x <= n,
                r@.len() <= x,
                forall|k: int|
                    0 <= k < r@.len() ==> ({
                        let id = (#[trigger] r@[k]).0;
                        &&& 1 <= id <= self.songs@.len()
                        &&& song_ids@.contains(id)
                        &&& r@[k].1.title@ == self.songs@[id - 1].info.title@
                        &&& r@[k].1.artist@ == self.songs@[id - 1].info.artist@
                        &&& r@[k].2 == self.songs@[id - 1].duration_ms
                    }),
                forall|k1: int, k2: int|
                    0 <= k1 < k2 < r@.len() ==> (#[trigger] r@[k1]).0 != (#[trigger] r@[k2]).0,
                forall|y: int|
                    0 <= y < x && 1 <= #[trigger] song_ids@[y] <= self.songs@.len()
                        ==> exists|k: int| 0 <= k < r@.len() && (#[trigger] r@[k]).0 == song_ids@[y],
            decreases n - x,
        {
            let ghost before = r@;
            let id = song_ids[x];
            proof {
                assert(song_ids@[x as int] == id);
            }
            if 1 <= id && id <= self.songs.len() as i64 {
                // One row per distinct id: skip an id already answered.
                let m = r.len();
                let mut j: usize = 0;
                let mut present = false;
                while j < m
                    invariant
                        m == r@.len(),
                        j <= m,
                        present == exists|k: int| 0 <= k < j && (#[trigger] r@[k]).0 == id,
                    decreases m - j,
                {
                    if r[j].0 == id {
                        present = true;
                        proof {
                            assert(r@[j as int].0 == id);
                        }
                    }
                    j = j + 1;
                }
                if !present {
                    let idx = (id - 1) as usize;
                    let rec = &self.songs[idx];
                    let entry = (id, rec.info.duplicate(), rec.duration_ms);
                    r.push(entry);
                    proof {
                        assert(r@[r@.len() - 1].0 == id);
                    }
                }
            }
            proof {
                assert forall|y: int|
                    0 <= y < x + 1 && 1 <= #[trigger] song_ids@[y]
                        <= self.songs@.len() implies exists|k: int|
                    0 <= k < r@.len() && (#[trigger] r@[k]).0 == song_ids@[y] by {
                    if y < x {
                        let k0 = choose|k: int|
                            0 <= k < before.len() && (#[trigger] before[k]).0 == song_ids@[y];
                        assert(r@[k0].0 == song_ids@[y]);
                    } else {
                        if exists|k: int| 0 <= k < before.len() && (#[trigger] before[k]).0 == id {
                            let k0 = choose|k: int|
                                0 <= k < before.len() && (#[trigger] before[k]).0 == id;
                            assert(r@[k0].0 == song_ids@[y]);
                        } else {
                            assert(r@[r@.len() - 1].0 == song_ids@[y]);
                        }
                    }
                }
            }
            x = x + 1;
        }
        r
    }
}

/// Storing the same identifying key twice returns the same id and leaves the
/// catalog exactly as the first insertion left it: no fingerprint rows are
/// duplicated.
pub proof fn lemma_insert_idempotent(
    songs: Seq<SongRecord>,
    title: String,
    artist: String,
    d1: u64,
    f1: Vec<Fingerprint>,
    d2: u64,
    f2: Vec<Fingerprint>,
)
    ensures
        ({
            let (songs1, id1) = spec_insert(songs, title, artist, d1, f1);
            let (songs2, id2) = spec_insert(songs1, title, artist, d2, f2);
            songs2 == songs1 && id2 == id1
        }),
{
    let (songs1, id1) = spec_insert(songs, title, artist, d1, f1);
    if exists|j: int| 0 <= j < songs.len() && key_matches(#[trigger] songs[j], title@, artist@) {
        let j = choose|j: int|
            0 <= j < songs.len() && key_matches(#[trigger] songs[j], title@, artist@);
        assert(key_matches(songs1[j], title@, artist@));
    } else {
        let l = songs.len() as int;
        assert(key_matches(songs1[l], title@, artist@));
        assert(exists|j: int|
            0 <= j < songs1.len() && key_matches(#[trigger] songs1[j], title@, artist@));
        let w = choose|j: int|
            0 <= j < songs1.len() && key_matches(#[trigger] songs1[j], title@, artist@);
        if w < l {
            assert(songs1[w] == songs[w]);
            assert(key_matches(songs[w], title@, artist@));
        }
        assert(w == l);
    }
}

} // verus!