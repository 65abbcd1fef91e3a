//! The in-memory library document: songs keyed by their semantic hash,
//! albums keyed by their remote id, and name-keyed playlists, together with
//! the queries and mutations the rest of the crate performs on it.

use vstd::prelude::*;
use crate::song::{AlbumInfo, AlbumInfoView, Song, SongView, TrackRecord, song_hash};
use crate::playlist::{DecodedPlaylist, Playlist, PlaylistDescriptor, PlaylistView};

verus! {

/// A song paired with its semantic hash, as stored in the track map.
#[derive(Clone, Debug)]
pub struct CachedHashSong {
    pub hash: u64,
    pub song: Song,
}

pub ghost struct CachedHashSongView {
    pub hash: u64,
    pub song: SongView,
}

impl View for CachedHashSong {
    type V = CachedHashSongView;

    open spec fn view(&self) -> CachedHashSongView {
        CachedHashSongView { hash: self.hash, song: self.song@ }
    }
}

impl CachedHashSong {
    /// Pairs a song with its semantic hash.
    pub fn from_song(song: Song) -> (r: CachedHashSong)
        ensures
            r@.song == song@,
            r@.hash == song_hash(song@),
    {
        let hash = song.semantic_hash();
        CachedHashSong { hash, song }
    }

    /// A field-wise copy; the derived `Clone` says nothing to the verifier.
    pub fn duplicate(&self) -> (r: CachedHashSong)
        ensures
            r@ == self@,
    {
        CachedHashSong { hash: self.hash, song: self.song.duplicate() }
    }
}

/// The track map's entries carry strictly increasing hashes.
pub open spec fn sorted_by_hash(s: Seq<CachedHashSongView>) -> bool {
    forall|i: int, j: int| 0 <= i < j < s.len() ==> s[i].hash < s[j].hash
}

/// Every stored hash is the semantic hash of the song beside it, and the
/// entries are strictly sorted by hash (so no hash occurs twice).
pub open spec fn entries_wf(s: Seq<CachedHashSongView>) -> bool {
    &&& sorted_by_hash(s)
    &&& forall|i: int| 0 <= i < s.len() ==> s[i].hash == song_hash(#[trigger] s[i].song)
}

/// The song stored under hash `h`, if any.
pub open spec fn lookup_track(s: Seq<CachedHashSongView>, h: u64) -> Option<SongView>
    decreases s.len(),
{
    if s.len() == 0 {
        None
    } else if s.first().hash == h {
        Some(s.first().song)
    } else {
        lookup_track(s.drop_first(), h)
    }
}

/// The songs the hash list resolves to, in order, unresolvable hashes
/// dropped.
pub open spec fn resolved_songs(s: Seq<CachedHashSongView>, hashes: Seq<u64>) -> Seq<SongView>
    decreases hashes.len(),
{
    if hashes.len() == 0 {
        Seq::empty()
    } else {
        match lookup_track(s, hashes.first()) {
            Some(v) => seq![v] + resolved_songs(s, hashes.drop_first()),
            None => resolved_songs(s, hashes.drop_first()),
        }
    }
}

pub proof fn lemma_lookup_absent(s: Seq<CachedHashSongView>, h: u64)
    requires
        forall|i: int| 0 <= i < s.len() ==> (#[trigger] s[i].hash) != h,
    ensures
        lookup_track(s, h) is None,
    decreases s.len(),
{
    if s.len() > 0 {
        assert(s[0].hash != h);
        lemma_lookup_absent(s.drop_first(), h);
    }
}

pub proof fn lemma_lookup_match(s: Seq<CachedHashSongView>, i: int)
    requires
        sorted_by_hash(s),
        0 <= i < s.len(),
    ensures
        lookup_track(s, s[i].hash) == Some(s[i].song),
    decreases s.len(),
{
    if i == 0 {
    } else {
        assert(s[0].hash < s[i].hash);
        assert(s.drop_first()[i - 1] == s[i]);
        assert(sorted_by_hash(s.drop_first())) by {
            assert(forall|a: int, b: int|
                0 <= a < b < s.drop_first().len() ==> s.drop_first()[a].hash < s.drop_first()[b].hash);
        }
        lemma_lookup_match(s.drop_first(), i - 1);
    }
}

/// Updating the entry that already carries hash `e.hash` changes that
/// lookup alone.
pub proof fn lemma_lookup_after_update(s: Seq<CachedHashSongView>, i: int, e: CachedHashSongView)
    requires
        sorted_by_hash(s),
        0 <= i < s.len(),
        e.hash == s[i].hash,
    ensures
        forall|h: u64| #[trigger] lookup_track(s.update(i, e), h)
            == if h == e.hash { Some(e.song) } else { lookup_track(s, h) },
{
    let t = s.update(i, e);
    assert(sorted_by_hash(t));
    assert forall|h: u64| #[trigger] lookup_track(t, h)
        == if h == e.hash { Some(e.song) } else { lookup_track(s, h) } by {
        if h == e.hash {
            lemma_lookup_match(t, i);
        } else {
            if exists|j: int| 0 <= j < s.len() && (#[trigger] s[j].hash) == h {
                let j = choose|j: int| 0 <= j < s.len() && (#[trigger] s[j].hash) == h;
                assert(j != i);
                assert(t[j] == s[j]);
                lemma_lookup_match(s, j);
                lemma_lookup_match(t, j);
            } else {
                lemma_lookup_absent(s, h);
                lemma_lookup_absent(t, h);
            }
        }
    }
}

/// Inserting an entry at its sorted position adds that lookup alone.
pub proof fn lemma_lookup_after_insert(s: Seq<CachedHashSongView>, i: int, e: CachedHashSongView)
    requires
        sorted_by_hash(s),
        0 <= i <= s.len(),
        forall|k: int| 0 <= k < i ==> (#[trigger] s[k].hash) < e.hash,
        forall|k: int| i <= k < s.len() ==> (#[trigger] s[k].hash) > e.hash,
    ensures
        sorted_by_hash(s.insert(i, e)),
        forall|h: u64| #[trigger] lookup_track(s.insert(i, e), h)
            == if h == e.hash { Some(e.song) } else { lookup_track(s, h) },
{
    let t = s.insert(i, e);
    assert(forall|k: int| 0 <= k < i ==> t[k] == s[k]);
    assert(forall|k: int| i < k < t.len() ==> t[k] == s[k - 1]);
    assert(t[i as int] == e);
    assert(sorted_by_hash(t));
    assert forall|h: u64| #[trigger] lookup_track(t, h)
        == if h == e.hash { Some(e.song) } else { lookup_track(s, h) } by {
        if h == e.hash {
            lemma_lookup_match(t, i);
        } else {
            if exists|j: int| 0 <= j < s.len() && (#[trigger] s[j].hash) == h {
                let j = choose|j: int| 0 <= j < s.len() && (#[trigger] s[j].hash) == h;
                lemma_lookup_match(s, j);
                if j < i {
                    lemma_lookup_match(t, j);
                } else {
                    lemma_lookup_match(t, j + 1);
                }
            } else {
                lemma_lookup_absent(s, h);
                assert(forall|k: int| 0 <= k < t.len() ==> (#[trigger] t[k].hash) != h);
                lemma_lookup_absent(t, h);
            }
        }
    }
}

/// Removing the entry at `i` forgets that lookup alone.
pub proof fn lemma_lookup_after_remove(s: Seq<CachedHashSongView>, i: int)
    requires
        sorted_by_hash(s),
        0 <= i < s.len(),
    ensures
        sorted_by_hash(s.remove(i)),
        forall|h: u64| #[trigger] lookup_track(s.remove(i), h)
            == if h == s[i].hash { None } else { lookup_track(s, h) },
{
    let t = s.remove(i);
    assert(forall|k: int| 0 <= k < i ==> t[k] == s[k]);
    assert(forall|k: int| i <= k < t.len() ==> t[k] == s[k + 1]);
    assert(sorted_by_hash(t));
    assert forall|h: u64| #[trigger] lookup_track(t, h)
        == if h == s[i].hash { None } else { lookup_track(s, h) } by {
        if h == s[i].hash {
            assert(forall|k: int| 0 <= k < t.len() ==> (#[trigger] t[k].hash) != h);
            lemma_lookup_absent(t, h);
            lemma_lookup_match(s, i);
        } else {
            if exists|j: int| 0 <= j < s.len() && (#[trigger] s[j].hash) == h {
                let j = choose|j: int| 0 <= j < s.len() && (#[trigger] s[j].hash) == h;
                lemma_lookup_match(s, j);
                if j < i {
                    lemma_lookup_match(t, j);
                } else {
                    lemma_lookup_match(t, j - 1);
                }
            } else {
                lemma_lookup_absent(s, h);
                assert(forall|k: int| 0 <= k < t.len() ==> (#[trigger] t[k].hash) != h);
                lemma_lookup_absent(t, h);
            }
        }
    }
}

/// The hash-keyed song map, kept sorted by hash.
#[derive(Clone, Debug)]
pub struct TrackHashMap {
    entries: Vec<CachedHashSong>,
}

impl View for TrackHashMap {
    type V = Seq<CachedHashSongView>;

    closed spec fn view(&self) -> Seq<CachedHashSongView> {
        self.entries@.map_values(|e: CachedHashSong| e@)
    }
}

impl TrackHashMap {
    pub fn new() -> (r: TrackHashMap)
        ensures
            r@ =~= Seq::<CachedHashSongView>::empty(),
    {
        TrackHashMap { entries: Vec::new() }
    }

    /// Rebuilds a map from entries already sorted and hashed correctly.
    pub fn from_entries(entries: Vec<CachedHashSong>) -> (r: TrackHashMap)
        requires
            entries_wf(entries@.map_values(|e: CachedHashSong| e@)),
        ensures
            r@ == entries@.map_values(|e: CachedHashSong| e@),
    {
        TrackHashMap { entries }
    }

    pub fn len(&self) -> (r: usize)
        ensures
            r == self@.len(),
    {
        self.entries.len()
    }

    pub fn entry_at(&self, i: usize) -> (r: &CachedHashSong)
        requires
            i < self@.len(),
        ensures
            r@ == self@[i as int],
    {
        &self.entries[i]
    }

    /// The position of hash `h`, if stored.
    pub fn find_index(&self, h: u64) -> (r: Option<usize>)
        ensures
            match r {
                Some(i) => i < self@.len() && self@[i as int].hash == h,
                None => forall|i: int| 0 <= i < self@.len() ==> (#[trigger] self@[i].hash) != h,
            },
    {
        let mut i: usize = 0;
        while i < self.entries.len()
            invariant
                i <= self@.len(),
                self@.len() == self.entries@.len(),
                forall|k: int| 0 <= k < i ==> (#[trigger] self@[k].hash) != h,
            decreases self@.len() - i,
        {
            if self.entries[i].hash == h {
                return Some(i);
            }
            i = i + 1;
        }
        None
    }

    /// The stored song under hash `h`, if any.
    pub fn get(&self, h: u64) -> (r: Option<&Song>)
        requires
            sorted_by_hash(self@),
        ensures
            match r {
                Some(song) => lookup_track(self@, h) == Some(song@),
                None => lookup_track(self@, h) is None,
            },
    {
        match self.find_index(h) {
            Some(i) => {
                proof {
                    lemma_lookup_match(self@, i as int);
                }
                Some(&self.entries[i].song)
            },
            None => {
                proof {
                    lemma_lookup_absent(self@, h);
                }
                None
            },
        }
    }

    /// Inserts the entry, overwriting the record already stored under the
    /// same hash if there is one: the map never holds two entries with one
    /// hash, and only the lookup at `e.hash` changes.
    pub fn upsert(&mut self, e: CachedHashSong)
        requires
            entries_wf(old(self)@),
            e@.hash == song_hash(e@.song),
        ensures
            entries_wf(final(self)@),
            lookup_track(final(self)@, e@.hash) == Some(e@.song),
            forall|h: u64| h != e@.hash
                ==> #[trigger] lookup_track(final(self)@, h) == lookup_track(old(self)@, h),
            final(self)@.len() == if lookup_track(old(self)@, e@.hash) is Some {
                old(self)@.len()
            } else {
                old(self)@.len() + 1
            },
    {
        let ghost s = self@;
        let mut i: usize = 0;
        while i < self.entries.len() && self.entries[i].hash < e.hash
            invariant
                self@ == s,
                i <= s.len(),
                s.len() == self.entries@.len(),
                e@.hash == song_hash(e@.song),
                forall|k: int| 0 <= k < i ==> (#[trigger] s[k].hash) < e@.hash,
            decreases s.len() - i,
        {
            i = i + 1;
        }
        if i < self.entries.len() && self.entries[i].hash == e.hash {
            proof {
                lemma_lookup_match(s, i as int);
                lemma_lookup_after_update(s, i as int, e@);
            }
            self.entries.remove(i);
            self.entries.insert(i, e);
            assert(self@ =~= s.update(i as int, e@));
        } else {
            proof {
                assert(forall|k: int| i <= k < s.len() ==> (#[trigger] s[k].hash) > e@.hash);
                assert(forall|k: int| 0 <= k < s.len() ==> (#[trigger] s[k].hash) != e@.hash);
                lemma_lookup_absent(s, e@.hash);
                lemma_lookup_after_insert(s, i as int, e@);
            }
            self.entries.insert(i, e);
            assert(self@ =~= s.insert(i as int, e@));
        }
    }

    /// Removes the entry under hash `h`; reports whether one was there, and
    /// changes nothing when none was.
    pub fn remove_hash(&mut self, h: u64) -> (r: bool)
        requires
            entries_wf(old(self)@),
        ensures
            entries_wf(final(self)@),
            r == (lookup_track(old(self)@, h) is Some),
            lookup_track(final(self)@, h) is None,
            forall|h2: u64| h2 != h
                ==> #[trigger] lookup_track(final(self)@, h2) == lookup_track(old(self)@, h2),
            final(self)@.len() == if lookup_track(old(self)@, h) is Some {
                old(self)@.len() - 1
            } else {
                old(self)@.len() as int
            },
            lookup_track(old(self)@, h) is None ==> final(self)@ == old(self)@,
    {
        let ghost s = self@;
        match self.find_index(h) {
            Some(i) => {
                proof {
                    lemma_lookup_match(s, i as int);
                    lemma_lookup_after_remove(s, i as int);
                }
                self.entries.remove(i);
                assert(self@ =~= s.remove(i as int));
                true
            },
            None => {
                proof {
                    lemma_lookup_absent(s, h);
                }
                false
            },
        }
    }

    /// The stored songs, in hash order.
    pub fn values(&self) -> (r: Vec<Song>)
        ensures
            r@.len() == self@.len(),
            forall|i: int| 0 <= i < r@.len() ==> (#[trigger] r@[i])@ == self@[i].song,
    {
        let mut r: Vec<Song> = Vec::new();
        let mut i: usize = 0;
        while i < self.entries.len()
            invariant
                i <= self.entries@.len(),
                self@.len() == self.entries@.len(),
                r@.len() == i,
                forall|k: int| 0 <= k < i ==> (#[trigger] r@[k])@ == self@[k].song,
            decreases self.entries@.len() - i,
        {
            r.push(self.entries[i].song.duplicate());
            i = i + 1;
        }
        r
    }
}

/// A stored album: the remote record and the hashes of its tracks.
#[derive(Clone, Debug)]
pub struct AlbumHashed {
    pub album: AlbumInfo,
    pub tracks: Vec<u64>,
}

pub ghost struct AlbumHashedView {
    pub album: AlbumInfoView,
    pub tracks: Seq<u64>,
}

impl View for AlbumHashed {
    type V = AlbumHashedView;

    open spec fn view(&self) -> AlbumHashedView {
        AlbumHashedView { album: self.album@, tracks: self.tracks@ }
    }
}

impl AlbumHashed {
    /// A field-wise copy; the derived `Clone` says nothing to the verifier.
    pub fn duplicate(&self) -> (r: AlbumHashed)
        ensures
            r@ == self@,
    {
        AlbumHashed { album: self.album.duplicate(), tracks: self.tracks.clone() }
    }
}

/// An album resolved against the track map.
#[derive(Clone, Debug)]
pub struct AlbumWithSongs {
    pub album: AlbumInfo,
    pub tracks: Vec<Song>,
}

/// A removal was asked of an entity the library does not hold.
#[derive(Clone, Copy, Debug, PartialEq, Eq, Structural)]
pub struct NotFoundError;

/// The first playlist with the given display name, if any.
pub open spec fn playlist_find(ps: Seq<PlaylistView>, name: Seq<char>) -> Option<int>
    decreases ps.len(),
{
    if ps.len() == 0 {
        None
    } else if ps.first().name == name {
        Some(0int)
    } else {
        match playlist_find(ps.drop_first(), name) {
            Some(i) => Some(i + 1),
            None => None,
        }
    }
}

pub proof fn lemma_playlist_find_at(ps: Seq<PlaylistView>, name: Seq<char>, i: int)
    requires
        0 <= i < ps.len(),
        ps[i].name == name,
        forall|k: int| 0 <= k < i ==> (#[trigger] ps[k].name) != name,
    ensures
        playlist_find(ps, name) == Some(i),
    decreases i,
{
    if i > 0 {
        lemma_playlist_find_at(ps.drop_first(), name, i - 1);
    }
}

pub proof fn lemma_playlist_find_absent(ps: Seq<PlaylistView>, name: Seq<char>)
    requires
        forall|k: int| 0 <= k < ps.len() ==> (#[trigger] ps[k].name) != name,
    ensures
        playlist_find(ps, name) is None,
    decreases ps.len(),
{
    if ps.len() > 0 {
        lemma_playlist_find_absent(ps.drop_first(), name);
    }
}

/// The first stored album with the given remote id, if any.
pub open spec fn album_find(als: Seq<AlbumHashedView>, id: u64) -> Option<int>
    decreases als.len(),
{
    if als.len() == 0 {
        None
    } else if als.first().album.id == id {
        Some(0int)
    } else {
        match album_find(als.drop_first(), id) {
            Some(i) => Some(i + 1),
            None => None,
        }
    }
}

pub proof fn lemma_album_find_at(als: Seq<AlbumHashedView>, id: u64, i: int)
    requires
        0 <= i < als.len(),
        als[i].album.id == id,
        forall|k: int| 0 <= k < i ==> (#[trigger] als[k].album.id) != id,
    ensures
        album_find(als, id) == Some(i),
    decreases i,
{
    if i > 0 {
        lemma_album_find_at(als.drop_first(), id, i - 1);
    }
}

pub proof fn lemma_album_find_absent(als: Seq<AlbumHashedView>, id: u64)
    requires
        forall|k: int| 0 <= k < als.len() ==> (#[trigger] als[k].album.id) != id,
    ensures
        album_find(als, id) is None,
    decreases als.len(),
{
    if als.len() > 0 {
        lemma_album_find_absent(als.drop_first(), id);
    }
}

/// Appends each hash of `hs`, in order, that the list does not hold yet:
/// membership is idempotent.
pub open spec fn push_absent(cur: Seq<u64>, hs: Seq<u64>) -> Seq<u64>
    decreases hs.len(),
{
    if hs.len() == 0 {
        cur
    } else {
        let next = if cur.contains(hs.first()) {
            cur
        } else {
            cur.push(hs.first())
        };
        push_absent(next, hs.drop_first())
    }
}


/// Membership in a playlist after a push: exactly the old hashes and the
/// pushed ones.
pub proof fn lemma_push_absent_membership(cur: Seq<u64>, hs: Seq<u64>)
    ensures
        forall|h: u64| #[trigger] push_absent(cur, hs).contains(h)
            <==> (cur.contains(h) || hs.contains(h)),
    decreases hs.len(),
{
    if hs.len() == 0 {
        assert forall|h: u64| #[trigger] push_absent(cur, hs).contains(h)
            <==> (cur.contains(h) || hs.contains(h)) by {
            assert(!hs.contains(h));
        }
    } else {
        let first = hs.first();
        let next = if cur.contains(first) {
            cur
        } else {
            cur.push(first)
        };
        lemma_push_absent_membership(next, hs.drop_first());
        assert(push_absent(cur, hs) == push_absent(next, hs.drop_first()));
        assert forall|h: u64| #[trigger] push_absent(cur, hs).contains(h)
            <==> (cur.contains(h) || hs.contains(h)) by {
            assert(push_absent(next, hs.drop_first()).contains(h)
                <==> (next.contains(h) || hs.drop_first().contains(h)));
            lemma_contains_step(cur, hs, h);
            if h == first && !cur.contains(first) {
                assert(next[cur.len() as int] == first);
                assert(next.contains(first));
            }
            if h != first {
                assert(next.contains(h) == cur.contains(h)) by {
                    if !cur.contains(first) {
                        if next.contains(h) {
                            let k = choose|k: int| 0 <= k < next.len() && next[k] == h;
                            assert(k < cur.len());
                            assert(cur[k] == h);
                        }
                        if cur.contains(h) {
                            let k = choose|k: int| 0 <= k < cur.len() && cur[k] == h;
                            assert(next[k] == h);
                        }
                    }
                }
            }
        }
    }
}

proof fn lemma_contains_step(cur: Seq<u64>, hs: Seq<u64>, h: u64)
    requires
        hs.len() > 0,
    ensures
        hs.contains(h) <==> (hs.first() == h || hs.drop_first().contains(h)),
{
    if hs.contains(h) {
        let k = choose|k: int| 0 <= k < hs.len() && hs[k] == h;
        if k > 0 {
            assert(hs.drop_first()[k - 1] == h);
        }
    }
    if hs.drop_first().contains(h) {
        let k = choose|k: int| 0 <= k < hs.drop_first().len() && hs.drop_first()[k] == h;
        assert(hs[k + 1] == h);
    }
}

/// A push of hashes the playlist already holds leaves it as it was.
pub proof fn lemma_push_absent_noop(cur: Seq<u64>, hs: Seq<u64>)
    requires
        forall|k: int| 0 <= k < hs.len() ==> cur.contains(#[trigger] hs[k]),
    ensures
        push_absent(cur, hs) == cur,
    decreases hs.len(),
{
    if hs.len() > 0 {
        assert(cur.contains(hs[0]));
        assert(forall|k: int| 0 <= k < hs.drop_first().len()
            ==> cur.contains(#[trigger] hs.drop_first()[k]));
        lemma_push_absent_noop(cur, hs.drop_first());
    }
}

/// Pushing the same songs onto a playlist twice is the same as pushing
/// them once: membership is idempotent.
pub proof fn lemma_push_absent_idempotent(cur: Seq<u64>, hs: Seq<u64>)
    ensures
        push_absent(push_absent(cur, hs), hs) == push_absent(cur, hs),
{
    let once = push_absent(cur, hs);
    lemma_push_absent_membership(cur, hs);
    assert(forall|k: int| 0 <= k < hs.len() ==> once.contains(#[trigger] hs[k]));
    lemma_push_absent_noop(once, hs);
}

/// A playlist that held a hash at most once still holds it at most once
/// after any push, and a pushed hash lands exactly once in a playlist that
/// lacked it.
pub proof fn lemma_push_absent_count(cur: Seq<u64>, hs: Seq<u64>, h: u64)
    ensures
        push_absent(cur, hs).to_multiset().count(h) == if cur.contains(h) {
            cur.to_multiset().count(h)
        } else if hs.contains(h) {
            1nat
        } else {
            0nat
        },
    decreases hs.len(),
{
    broadcast use vstd::seq_lib::group_to_multiset_ensures;

    if hs.len() == 0 {
        assert(!hs.contains(h));
        if !cur.contains(h) {
            assert(cur.to_multiset().count(h) == 0);
        }
    } else {
        let first = hs.first();
        let next = if cur.contains(first) {
            cur
        } else {
            cur.push(first)
        };
        lemma_push_absent_count(next, hs.drop_first(), h);
        lemma_contains_step(cur, hs, h);
        if h == first {
            if cur.contains(h) {
                assert(next == cur);
            } else {
                assert(next == cur.push(h));
                assert(next.to_multiset() =~= cur.to_multiset().insert(h));
                assert(cur.to_multiset().count(h) == 0);
                assert(next.to_multiset().count(h) == 1);
                assert(next.contains(h));
            }
        } else {
            if cur.contains(first) {
                assert(next == cur);
            } else {
                assert(next.to_multiset() =~= cur.to_multiset().insert(first));
                assert(next.to_multiset().count(h) == cur.to_multiset().count(h));
                assert(next.contains(h) <==> cur.contains(h)) by {
                    if next.contains(h) {
                        let k = choose|k: int| 0 <= k < next.len() && next[k] == h;
                        assert(k < cur.len());
                        assert(cur[k] == h);
                    }
                    if cur.contains(h) {
                        let k = choose|k: int| 0 <= k < cur.len() && cur[k] == h;
                        assert(next[k] == h);
                    }
                }
            }
        }
    }
}

/// Drops the first occurrence of `h`, if any.
pub open spec fn remove_first(s: Seq<u64>, h: u64) -> Seq<u64>
    decreases s.len(),
{
    if s.len() == 0 {
        s
    } else if s.first() == h {
        s.drop_first()
    } else {
        seq![s.first()] + remove_first(s.drop_first(), h)
    }
}

pub proof fn lemma_remove_first_at(s: Seq<u64>, h: u64, j: int)
    requires
        0 <= j < s.len(),
        s[j] == h,
        forall|k: int| 0 <= k < j ==> (#[trigger] s[k]) != h,
    ensures
        remove_first(s, h) == s.remove(j),
    decreases j,
{
    if j == 0 {
        assert(remove_first(s, h) =~= s.remove(0));
    } else {
        lemma_remove_first_at(s.drop_first(), h, j - 1);
        assert(seq![s.first()] + s.drop_first().remove(j - 1) =~= s.remove(j));
    }
}

pub proof fn lemma_remove_first_absent(s: Seq<u64>, h: u64)
    requires
        forall|k: int| 0 <= k < s.len() ==> (#[trigger] s[k]) != h,
    ensures
        remove_first(s, h) == s,
    decreases s.len(),
{
    if s.len() > 0 {
        lemma_remove_first_absent(s.drop_first(), h);
        assert(seq![s.first()] + s.drop_first() =~= s);
    }
}

/// The views of a vector of songs.
pub open spec fn songs_view(ss: Seq<Song>) -> Seq<SongView> {
    ss.map_values(|s: Song| s@)
}

/// The semantic hashes of a vector of songs.
pub open spec fn song_hashes(ss: Seq<Song>) -> Seq<u64> {
    ss.map_values(|s: Song| song_hash(s@))
}

pub proof fn lemma_resolved_append(s: Seq<CachedHashSongView>, a: Seq<u64>, b: Seq<u64>)
    ensures
        resolved_songs(s, a + b) == resolved_songs(s, a) + resolved_songs(s, b),
    decreases a.len(),
{
    if a.len() == 0 {
        assert(a + b =~= b);
        assert(resolved_songs(s, a) + resolved_songs(s, b) =~= resolved_songs(s, b));
    } else {
        assert((a + b).first() == a.first());
        assert((a + b).drop_first() =~= a.drop_first() + b);
        lemma_resolved_append(s, a.drop_first(), b);
        match lookup_track(s, a.first()) {
            Some(v) => {
                assert(seq![v] + (resolved_songs(s, a.drop_first()) + resolved_songs(s, b))
                    =~= (seq![v] + resolved_songs(s, a.drop_first())) + resolved_songs(s, b));
            },
            None => {},
        }
    }
}

/// The whole persisted library: the hash-keyed track map, the playlists in
/// insertion order, and the stored albums.
#[derive(Clone, Debug)]
pub struct DatabaseDataContainer {
    pub(crate) tracks: TrackHashMap,
    pub(crate) playlists: Vec<Playlist>,
    pub(crate) albums: Vec<AlbumHashed>,
}

pub ghost struct LibraryDocView {
    pub tracks: Seq<CachedHashSongView>,
    pub playlists: Seq<PlaylistView>,
    pub albums: Seq<AlbumHashedView>,
}

impl View for DatabaseDataContainer {
    type V = LibraryDocView;

    closed spec fn view(&self) -> LibraryDocView {
        LibraryDocView {
            tracks: self.tracks@,
            playlists: self.playlists@.map_values(|p: Playlist| p@),
            albums: self.albums@.map_values(|a: AlbumHashed| a@),
        }
    }
}

impl DatabaseDataContainer {
    /// Every stored track entry carries the semantic hash of its song, in
    /// strictly increasing order.
    pub open spec fn wf(&self) -> bool {
        entries_wf(self@.tracks)
    }

    /// The empty library.
    pub fn new() -> (r: DatabaseDataContainer)
        ensures
            r.wf(),
            r@.tracks =~= Seq::<CachedHashSongView>::empty(),
            r@.playlists =~= Seq::<PlaylistView>::empty(),
            r@.albums =~= Seq::<AlbumHashedView>::empty(),
    {
        let r = DatabaseDataContainer {
            tracks: TrackHashMap::new(),
            playlists: Vec::new(),
            albums: Vec::new(),
        };
        proof {
            assert(r@.playlists =~= Seq::<PlaylistView>::empty());
            assert(r@.albums =~= Seq::<AlbumHashedView>::empty());
        }
        r
    }

    /// Reassembles a library from its three collections.
    pub fn from_parts(tracks: TrackHashMap, playlists: Vec<Playlist>, albums: Vec<AlbumHashed>)
        -> (r: DatabaseDataContainer)
        requires
            entries_wf(tracks@),
        ensures
            r.wf(),
            r@.tracks == tracks@,
            r@.playlists == playlists@.map_values(|p: Playlist| p@),
            r@.albums == albums@.map_values(|a: AlbumHashed| a@),
    {
        DatabaseDataContainer { tracks, playlists, albums }
    }

    pub fn tracks_full(&self) -> (r: &TrackHashMap)
        ensures
            r@ == self@.tracks,
    {
        &self.tracks
    }

    pub fn playlists_ref(&self) -> (r: &Vec<Playlist>)
        ensures
            r@.map_values(|p: Playlist| p@) == self@.playlists,
            r@.len() == self@.playlists.len(),
            forall|i: int| 0 <= i < r@.len() ==> (#[trigger] r@[i])@ == self@.playlists[i],
    {
        &self.playlists
    }

    pub fn albums_ref(&self) -> (r: &Vec<AlbumHashed>)
        ensures
            r@.map_values(|a: AlbumHashed| a@) == self@.albums,
            r@.len() == self@.albums.len(),
            forall|i: int| 0 <= i < r@.len() ==> (#[trigger] r@[i])@ == self@.albums[i],
    {
        &self.albums
    }

    /// All stored songs, in hash order.
    pub fn tracks(&self) -> (r: Vec<Song>)
        ensures
            r@.len() == self@.tracks.len(),
            forall|i: int| 0 <= i < r@.len() ==> (#[trigger] r@[i])@ == self@.tracks[i].song,
    {
        self.tracks.values()
    }

    /// Upserts the song under its semantic hash: a song with the same
    /// semantic fields as a stored one replaces that record and the map
    /// size does not change.
    pub fn add_song(&mut self, song: Song)
        requires
            old(self).wf(),
        ensures
            final(self).wf(),
            lookup_track(final(self)@.tracks, song_hash(song@)) == Some(song@),
            forall|h: u64| h != song_hash(song@)
                ==> #[trigger] lookup_track(final(self)@.tracks, h)
                    == lookup_track(old(self)@.tracks, h),
            final(self)@.tracks.len() == if lookup_track(old(self)@.tracks, song_hash(song@)) is Some {
                old(self)@.tracks.len() + 0
            } else {
                old(self)@.tracks.len() + 1
            },
            final(self)@.playlists == old(self)@.playlists,
            final(self)@.albums == old(self)@.albums,
    {
        let entry = CachedHashSong::from_song(song);
        self.tracks.upsert(entry);
    }

    /// Removes the song stored under the given song's semantic hash; when
    /// none is stored there, fails and leaves the library untouched.
    pub fn remove_song(&mut self, song: Song) -> (r: Result<(), NotFoundError>)
        requires
            old(self).wf(),
        ensures
            final(self).wf(),
            r is Ok <==> lookup_track(old(self)@.tracks, song_hash(song@)) is Some,
            r is Ok ==> {
                &&& lookup_track(final(self)@.tracks, song_hash(song@)) is None
                &&& forall|h: u64| h != song_hash(song@)
                    ==> #[trigger] lookup_track(final(self)@.tracks, h)
                        == lookup_track(old(self)@.tracks, h)
                &&& final(self)@.tracks.len() == old(self)@.tracks.len() - 1
                &&& final(self)@.playlists == old(self)@.playlists
                &&& final(self)@.albums == old(self)@.albums
            },
            r is Err ==> final(self)@ == old(self)@,
    {
        let h = song.semantic_hash();
        if self.tracks.remove_hash(h) {
            Ok(())
        } else {
            Err(NotFoundError)
        }
    }

    /// All stored songs; order is an implementation detail.
    pub fn get_songs(&self) -> (r: Vec<Song>)
        ensures
            r@.len() == self@.tracks.len(),
            forall|i: int| 0 <= i < r@.len() ==> (#[trigger] r@[i])@ == self@.tracks[i].song,
    {
        self.tracks.values()
    }

    /// The songs a list of hashes resolves to, unresolvable ones dropped.
    pub fn resolve_hashes(&self, hashes: &Vec<u64>) -> (r: Vec<Song>)
        requires
            self.wf(),
        ensures
            songs_view(r@) == resolved_songs(self@.tracks, hashes@),
    {
        let mut r: Vec<Song> = Vec::new();
        let mut i: usize = 0;
        proof {
            assert(hashes@.take(0) =~= Seq::<u64>::empty());
            assert(songs_view(r@) =~= resolved_songs(self@.tracks, hashes@.take(0)));
        }
        while i < hashes.len()
            invariant
                self.wf(),
                i <= hashes@.len(),
                songs_view(r@) == resolved_songs(self@.tracks, hashes@.take(i as int)),
            decreases hashes@.len() - i,
        {
            let ghost prefix = hashes@.take(i as int);
            let ghost single = seq![hashes@[i as int]];
            proof {
                assert(hashes@.take(i as int + 1) =~= prefix + single);
                lemma_resolved_append(self@.tracks, prefix, single);
                assert(single.first() == hashes@[i as int]);
                assert(single.drop_first() =~= Seq::<u64>::empty());
                assert(resolved_songs(self@.tracks, Seq::<u64>::empty())
                    =~= Seq::<SongView>::empty());
            }
            match self.tracks.get(hashes[i]) {
                Some(song) => {
                    let ghost v = song@;
                    r.push(song.duplicate());
                    proof {
                        assert(resolved_songs(self@.tracks, single) =~= seq![v]);
                        assert(songs_view(r@) =~= resolved_songs(self@.tracks, prefix) + seq![v]);
                        assert(songs_view(r@)
                            =~= resolved_songs(self@.tracks, hashes@.take(i as int + 1)));
                    }
                },
                None => {
                    proof {
                        assert(resolved_songs(self@.tracks, single) =~= Seq::<SongView>::empty());
                        assert(songs_view(r@)
                            =~= resolved_songs(self@.tracks, hashes@.take(i as int + 1)));
                    }
                },
            }
            i = i + 1;
        }
        proof {
            assert(hashes@.take(hashes@.len() as int) =~= hashes@);
        }
        r
    }

    /// The position of the first playlist with the given name, if any.
    fn find_playlist(&self, name: &String) -> (r: Option<usize>)
        ensures
            match r {
                Some(i) => i < self@.playlists.len()
                    && playlist_find(self@.playlists, name@) == Some(i as int),
                None => playlist_find(self@.playlists, name@) is None,
            },
    {
        let ghost ps = self@.playlists;
        let mut i: usize = 0;
        while i < self.playlists.len()
            invariant
                i <= ps.len(),
                ps == self@.playlists,
                ps.len() == self.playlists@.len(),
                forall|k: int| 0 <= k < i ==> (#[trigger] ps[k].name) != name@,
            decreases ps.len() - i,
        {
            if self.playlists[i].name == *name {
                proof {
                    lemma_playlist_find_at(ps, name@, i as int);
                }
                return Some(i);
            }
            i = i + 1;
        }
        proof {
            lemma_playlist_find_absent(ps, name@);
        }
        None
    }

    /// Appends the playlist as given.
    pub fn add_playlist(&mut self, playlist: &Playlist)
        ensures
            final(self)@.playlists =~= old(self)@.playlists.push(playlist@),
            final(self)@.tracks == old(self)@.tracks,
            final(self)@.albums == old(self)@.albums,
    {
        self.playlists.push(playlist.duplicate());
    }

    /// Appends the hashes of the given songs to the named playlist, each
    /// skipped when the playlist already holds it; a name the library does
    /// not know leaves everything unchanged.
    pub fn push_to_playlist(&mut self, playlist: &PlaylistDescriptor, songs: &Vec<Song>)
        ensures
            final(self)@.tracks == old(self)@.tracks,
            final(self)@.albums == old(self)@.albums,
            match playlist_find(old(self)@.playlists, playlist@.name) {
                None => final(self)@.playlists == old(self)@.playlists,
                Some(i) => final(self)@.playlists =~= old(self)@.playlists.update(i, (PlaylistView {
                    songs: push_absent(old(self)@.playlists[i].songs, song_hashes(songs@)),
                    ..old(self)@.playlists[i]
                })),
            },
    {
        let ghost ps0 = self@.playlists;
        let ghost hs = song_hashes(songs@);
        match self.find_playlist(&playlist.name) {
            None => {},
            Some(i) => {
                let mut p = self.playlists.remove(i);
                let ghost songs0 = p@.songs;
                let mut k: usize = 0;
                proof {
                    assert(hs.skip(0) =~= hs);
                }
                while k < songs.len()
                    invariant
                        k <= songs@.len(),
                        hs == song_hashes(songs@),
                        hs.len() == songs@.len(),
                        push_absent(p@.songs, hs.skip(k as int)) == push_absent(songs0, hs),
                        p@.id == ps0[i as int].id,
                        p@.name == ps0[i as int].name,
                        p@.image == ps0[i as int].image,
                    decreases songs@.len() - k,
                {
                    let ghost cur = p@.songs;
                    let h = songs[k].semantic_hash();
                    proof {
                        assert(hs.skip(k as int).first() == hs[k as int]);
                        assert(hs.skip(k as int).drop_first() =~= hs.skip(k as int + 1));
                        assert(hs[k as int] == song_hash(songs@[k as int]@));
                    }
                    if !contains_u64(&p.songs, h) {
                        p.songs.push(h);
                    }
                    k = k + 1;
                }
                proof {
                    assert(hs.skip(songs@.len() as int) =~= Seq::<u64>::empty());
                }
                self.playlists.insert(i, p);
                proof {
                    assert(final(self)@.playlists =~= ps0.update(i as int, (PlaylistView {
                        songs: push_absent(ps0[i as int].songs, hs),
                        ..ps0[i as int]
                    })));
                }
            },
        }
    }

    /// Resolves the named playlist against the track map, dropping hashes
    /// that no longer resolve; a name the library does not know gives
    /// nothing.
    pub fn unhash_playlist_songs(&self, descriptor: &PlaylistDescriptor)
        -> (r: Option<DecodedPlaylist>)
        requires
            self.wf(),
        ensures
            match playlist_find(self@.playlists, descriptor@.name) {
                None => r is None,
                Some(i) => match r {
                    Some(dp) => dp.descriptor@ == descriptor@
                        && songs_view(dp.songs@)
                            == resolved_songs(self@.tracks, self@.playlists[i].songs),
                    None => false,
                },
            },
    {
        match self.find_playlist(&descriptor.name) {
            None => None,
            Some(i) => {
                let songs = self.resolve_hashes(&self.playlists[i].songs);
                Some(DecodedPlaylist { descriptor: descriptor.duplicate(), songs })
            },
        }
    }

    /// The descriptors of all playlists, in stored order. Images are not
    /// carried over.
    pub fn get_playlists(&self) -> (r: Vec<PlaylistDescriptor>)
        ensures
            r@.len() == self@.playlists.len(),
            forall|i: int| 0 <= i < r@.len() ==> {
                &&& (#[trigger] r@[i])@.id == self@.playlists[i].id
                &&& r@[i]@.name == self@.playlists[i].name
                &&& r@[i]@.image is None
            },
    {
        let mut r: Vec<PlaylistDescriptor> = Vec::new();
        let mut i: usize = 0;
        while i < self.playlists.len()
            invariant
                i <= self@.playlists.len(),
                self@.playlists.len() == self.playlists@.len(),
                r@.len() == i,
                forall|k: int| 0 <= k < i ==> {
                    &&& (#[trigger] r@[k])@.id == self@.playlists[k].id
                    &&& r@[k]@.name == self@.playlists[k].name
                    &&& r@[k]@.image is None
                },
            decreases self.playlists@.len() - i,
        {
            let p = &self.playlists[i];
            r.push(PlaylistDescriptor { id: p.id.clone(), name: p.name.clone(), image: None });
            i = i + 1;
        }
        r
    }

    /// Drops the first occurrence of the song's hash from the named
    /// playlist; an unknown name or an absent hash changes nothing.
    pub fn remove_from_playlist(&mut self, playlist: &PlaylistDescriptor, song: &Song)
        ensures
            final(self)@.tracks == old(self)@.tracks,
            final(self)@.albums == old(self)@.albums,
            match playlist_find(old(self)@.playlists, playlist@.name) {
                None => final(self)@.playlists == old(self)@.playlists,
                Some(i) => final(self)@.playlists =~= old(self)@.playlists.update(i, (PlaylistView {
                    songs: remove_first(old(self)@.playlists[i].songs, song_hash(song@)),
                    ..old(self)@.playlists[i]
                })),
            },
    {
        let ghost ps0 = self@.playlists;
        let h = song.semantic_hash();
        match self.find_playlist(&playlist.name) {
            None => {},
            Some(i) => {
                let mut p = self.playlists.remove(i);
                let ghost songs0 = p@.songs;
                let mut j: usize = 0;
                let mut found = false;
                while j < p.songs.len() && !found
                    invariant
                        j <= p@.songs.len(),
                        p@.songs.len() == p.songs@.len(),
                        !found ==> forall|k: int| 0 <= k < j ==> (#[trigger] p@.songs[k]) != h,
                        found ==> j < p@.songs.len() && p@.songs[j as int] == h
                            && (forall|k: int| 0 <= k < j ==> (#[trigger] p@.songs[k]) != h),
                        p@ == (PlaylistView { songs: songs0, ..ps0[i as int] }),
                        songs0 == ps0[i as int].songs,
                    decreases p@.songs.len() - j, (if found { 0int } else { 1int }),
                {
                    if p.songs[j] == h {
                        found = true;
                    } else {
                        j = j + 1;
                    }
                }
                if found {
                    proof {
                        lemma_remove_first_at(songs0, h, j as int);
                    }
                    p.songs.remove(j);
                } else {
                    proof {
                        lemma_remove_first_absent(songs0, h);
                    }
                }
                self.playlists.insert(i, p);
                proof {
                    assert(final(self)@.playlists =~= ps0.update(i as int, (PlaylistView {
                        songs: remove_first(ps0[i as int].songs, song_hash(song@)),
                        ..ps0[i as int]
                    })));
                }
            },
        }
    }

    /// Removes the first playlist with the given name; an unknown name
    /// fails and changes nothing.
    pub fn remove_playlist(&mut self, playlist: &PlaylistDescriptor)
        -> (r: Result<(), NotFoundError>)
        ensures
            final(self)@.tracks == old(self)@.tracks,
            final(self)@.albums == old(self)@.albums,
            match playlist_find(old(self)@.playlists, playlist@.name) {
                None => r is Err && final(self)@ == old(self)@,
                Some(i) => r is Ok
                    && final(self)@.playlists =~= old(self)@.playlists.remove(i),
            },
    {
        match self.find_playlist(&playlist.name) {
            None => Err(NotFoundError),
            Some(i) => {
                self.playlists.remove(i);
                Ok(())
            },
        }
    }

    /// The position of the first stored album with the given id, if any.
    fn find_album(&self, id: u64) -> (r: Option<usize>)
        ensures
            match r {
                Some(i) => i < self@.albums.len()
                    && album_find(self@.albums, id) == Some(i as int),
                None => album_find(self@.albums, id) is None,
            },
    {
        let ghost als = self@.albums;
        let mut i: usize = 0;
        while i < self.albums.len()
            invariant
                i <= als.len(),
                als == self@.albums,
                als.len() == self.albums@.len(),
                forall|k: int| 0 <= k < i ==> (#[trigger] als[k].album.id) != id,
            decreases als.len() - i,
        {
            if self.albums[i].album.id == id {
                proof {
                    lemma_album_find_at(als, id, i as int);
                }
                return Some(i);
            }
            i = i + 1;
        }
        proof {
            lemma_album_find_absent(als, id);
        }
        None
    }

    /// Stores the album under its remote id, with the semantic hashes of
    /// the given songs as its track list: a stored album with that id has
    /// its track list replaced and its record kept, any other gets a new
    /// entry.
    pub fn add_album(&mut self, album: &AlbumInfo, tracks: Vec<Song>)
        ensures
            final(self)@.tracks == old(self)@.tracks,
            final(self)@.playlists == old(self)@.playlists,
            match album_find(old(self)@.albums, album@.id) {
                Some(i) => final(self)@.albums =~= old(self)@.albums.update(i, (AlbumHashedView {
                    album: old(self)@.albums[i].album,
                    tracks: song_hashes(tracks@),
                })),
                None => final(self)@.albums =~= old(self)@.albums.push((AlbumHashedView {
                    album: album@,
                    tracks: song_hashes(tracks@),
                })),
            },
    {
        let ghost als0 = self@.albums;
        let mut hashes: Vec<u64> = Vec::new();
        let mut k: usize = 0;
        while k < tracks.len()
            invariant
                k <= tracks@.len(),
                hashes@.len() == k,
                forall|j: int| 0 <= j < k ==> (#[trigger] hashes@[j]) == song_hash(tracks@[j]@),
            decreases tracks@.len() - k,
        {
            let h = tracks[k].semantic_hash();
            hashes.push(h);
            k = k + 1;
        }
        proof {
            assert(hashes@ =~= song_hashes(tracks@));
        }
        match self.find_album(album.id) {
            Some(i) => {
                let mut a = self.albums.remove(i);
                a.tracks = hashes;
                self.albums.insert(i, a);
                proof {
                    assert(final(self)@.albums =~= als0.update(i as int, (AlbumHashedView {
                        album: als0[i as int].album,
                        tracks: song_hashes(tracks@),
                    })));
                }
            },
            None => {
                self.albums.push(AlbumHashed { album: album.duplicate(), tracks: hashes });
                proof {
                    assert(final(self)@.albums =~= als0.push((AlbumHashedView {
                        album: album@,
                        tracks: song_hashes(tracks@),
                    })));
                }
            },
        }
    }

    /// Every stored album, resolved against the track map; hashes that no
    /// longer resolve are dropped without error.
    pub fn get_albums(&self) -> (r: Vec<AlbumWithSongs>)
        requires
            self.wf(),
        ensures
            r@.len() == self@.albums.len(),
            forall|i: int| 0 <= i < r@.len() ==> {
                &&& (#[trigger] r@[i]).album@ == self@.albums[i].album
                &&& songs_view(r@[i].tracks@)
                    == resolved_songs(self@.tracks, self@.albums[i].tracks)
            },
    {
        let mut r: Vec<AlbumWithSongs> = Vec::new();
        let mut i: usize = 0;
        while i < self.albums.len()
            invariant
                self.wf(),
                i <= self@.albums.len(),
                self@.albums.len() == self.albums@.len(),
                r@.len() == i,
                forall|k: int| 0 <= k < i ==> {
                    &&& (#[trigger] r@[k]).album@ == self@.albums[k].album
                    &&& songs_view(r@[k].tracks@)
                        == resolved_songs(self@.tracks, self@.albums[k].tracks)
                },
            decreases self.albums@.len() - i,
        {
            let songs = self.resolve_hashes(&self.albums[i].tracks);
            r.push(AlbumWithSongs { album: self.albums[i].album.duplicate(), tracks: songs });
            i = i + 1;
        }
        r
    }

    /// The stored track list of the given album, resolved against the
    /// track map. The album must be stored.
    pub fn get_album_tracks(&self, album: &AlbumInfo) -> (r: Vec<Song>)
        requires
            self.wf(),
            album_find(self@.albums, album@.id) is Some,
        ensures
            songs_view(r@) == resolved_songs(
                self@.tracks,
                self@.albums[album_find(self@.albums, album@.id).unwrap()].tracks,
            ),
    {
        let i = self.find_album(album.id).unwrap();
        self.resolve_hashes(&self.albums[i].tracks)
    }

    /// The stored track list of the given album, resolved against the
    /// track map. The album must be stored.
    pub fn resolve_album(&self, album: &AlbumInfo) -> (r: Vec<Song>)
        requires
            self.wf(),
            album_find(self@.albums, album@.id) is Some,
        ensures
            songs_view(r@) == resolved_songs(
                self@.tracks,
                self@.albums[album_find(self@.albums, album@.id).unwrap()].tracks,
            ),
    {
        self.get_album_tracks(album)
    }

    /// The raw hash list of the given album, or nothing when the album is
    /// not stored.
    pub fn resolve_hashed_songs(&self, album: &AlbumInfo) -> (r: Vec<u64>)
        ensures
            r@ == match album_find(self@.albums, album@.id) {
                Some(i) => self@.albums[i].tracks,
                None => Seq::<u64>::empty(),
            },
    {
        match self.find_album(album.id) {
            Some(i) => self.albums[i].tracks.clone(),
            None => Vec::new(),
        }
    }

    /// The first stored song whose remote track record equals the given
    /// one, if any.
    pub fn resolve_song(&self, track: &TrackRecord) -> (r: Option<Song>)
        ensures
            match r {
                Some(song) => song@.remote_track == Some(track@)
                    && (exists|i: int| 0 <= i < self@.tracks.len()
                        && (#[trigger] self@.tracks[i]).song == song@),
                None => forall|i: int| 0 <= i < self@.tracks.len()
                    ==> (#[trigger] self@.tracks[i]).song.remote_track != Some(track@),
            },
    {
        let n = self.tracks.len();
        let mut i: usize = 0;
        while i < n
            invariant
                i <= n,
                n == self@.tracks.len(),
                forall|k: int| 0 <= k < i
                    ==> (#[trigger] self@.tracks[k]).song.remote_track != Some(track@),
            decreases n - i,
        {
            let entry = self.tracks.entry_at(i);
            let matches_track = match &entry.song.remote_track {
                Some(t) => crate::song::track_record_eq(t, track),
                None => false,
            };
            if matches_track {
                return Some(entry.song.duplicate());
            }
            i = i + 1;
        }
        None
    }
}

impl PlaylistDescriptor {
    /// The stored hash list of the playlist with this descriptor's name,
    /// or nothing when the library does not know the name.
    pub fn hash_songs(&self, data: &DatabaseDataContainer) -> (r: Vec<u64>)
        ensures
            r@ == match playlist_find(data@.playlists, self@.name) {
                Some(i) => data@.playlists[i].songs,
                None => Seq::<u64>::empty(),
            },
    {
        match data.find_playlist(&self.name) {
            Some(i) => data.playlists[i].songs.clone(),
            None => Vec::new(),
        }
    }
}

impl Song {
    /// The first stored song downloaded from the given remote track, if
    /// any.
    pub fn resolve(data: &DatabaseDataContainer, track: &TrackRecord) -> (r: Option<Song>)
        ensures
            match r {
                Some(song) => song@.remote_track == Some(track@)
                    && (exists|i: int| 0 <= i < data@.tracks.len()
                        && (#[trigger] data@.tracks[i]).song == song@),
                None => forall|i: int| 0 <= i < data@.tracks.len()
                    ==> (#[trigger] data@.tracks[i]).song.remote_track != Some(track@),
            },
    {
        data.resolve_song(track)
    }
}

/// The least time that must pass between two flushes of the document.
pub const FLUSH_COOLDOWN_MS: u64 = 2000;

/// The document together with the bookkeeping of its last flush: the
/// structural hash it was last written with and when. A dirty check
/// compares the current hash against the recorded one and respects the
/// cool-down, so bursts of mutations cost one write.
pub struct Database {
    data: DatabaseDataContainer,
    last_save_hash: u64,
    last_save_time_ms: u64,
}

pub ghost struct DatabaseView {
    pub data: LibraryDocView,
    pub last_save_hash: u64,
    pub last_save_time_ms: u64,
}

impl View for Database {
    type V = DatabaseView;

    closed spec fn view(&self) -> DatabaseView {
        DatabaseView {
            data: self.data@,
            last_save_hash: self.last_save_hash,
            last_save_time_ms: self.last_save_time_ms,
        }
    }
}

/// The dirty-check policy: write only when the document changed since the
/// last flush and the cool-down has passed.
pub open spec fn flush_due(d: DatabaseView, now_ms: u64) -> bool {
    &&& crate::codec::doc_hash(d.data) != d.last_save_hash
    &&& now_ms >= d.last_save_time_ms + FLUSH_COOLDOWN_MS
}

impl Database {
    /// Wraps a loaded document, counting it as freshly flushed.
    pub fn new(data: DatabaseDataContainer, now_ms: u64) -> (r: Database)
        requires
            data.wf(),
        ensures
            r@.data == data@,
            r.wf(),
            r@.last_save_hash == crate::codec::doc_hash(data@),
            r@.last_save_time_ms == now_ms,
    {
        let hash = crate::codec::document_hash(&data);
        Database { data, last_save_hash: hash, last_save_time_ms: now_ms }
    }

    pub closed spec fn wf(&self) -> bool {
        self.data.wf()
    }

    pub fn raw(&self) -> (r: &DatabaseDataContainer)
        ensures
            r@ == self@.data,
            self.wf() ==> r.wf(),
    {
        &self.data
    }

    /// The document, for mutation; the flush bookkeeping stays put, so a
    /// later dirty check sees the change.
    pub fn raw_mut(&mut self) -> (r: &mut DatabaseDataContainer)
        ensures
            r@ == old(self)@.data,
            old(self).wf() ==> r.wf(),
            final(self)@.data == final(r)@,
            final(self)@.last_save_hash == old(self)@.last_save_hash,
            final(self)@.last_save_time_ms == old(self)@.last_save_time_ms,
    {
        &mut self.data
    }

    pub fn last_save_hash(&self) -> (r: u64)
        ensures
            r == self@.last_save_hash,
    {
        self.last_save_hash
    }

    pub fn last_save_time(&self) -> (r: u64)
        ensures
            r == self@.last_save_time_ms,
    {
        self.last_save_time_ms
    }

    /// Whether a dirty check at `now_ms` must write: exactly when the
    /// document's hash moved away from the recorded one and the cool-down
    /// since the last write has fully passed.
    pub fn should_flush(&self, now_ms: u64) -> (r: bool)
        ensures
            r == flush_due(self@, now_ms),
    {
        let hash = crate::codec::document_hash(&self.data);
        if hash == self.last_save_hash {
            return false;
        }
        if now_ms >= self.last_save_time_ms
            && now_ms - self.last_save_time_ms >= FLUSH_COOLDOWN_MS {
            true
        } else {
            false
        }
    }

    /// The text a flush writes to disk: the whole document, canonically.
    pub fn encoded(&self) -> (r: String)
        ensures
            r@ == crate::codec::enc_doc(self@.data),
    {
        crate::codec::document_to_string(&self.data)
    }

    /// Records a successful write: the document's current hash becomes the
    /// saved one and the cool-down restarts. Call it only once the bytes
    /// are safely on disk — a failed write, left unrecorded, is retried by
    /// the next dirty check.
    pub fn mark_flushed(&mut self, now_ms: u64)
        ensures
            final(self)@.data == old(self)@.data,
            final(self)@.last_save_hash == crate::codec::doc_hash(old(self)@.data),
            final(self)@.last_save_time_ms == now_ms,
    {
        self.last_save_hash = crate::codec::document_hash(&self.data);
        self.last_save_time_ms = now_ms;
    }
}

/// Once a flush is recorded, an immediate second dirty check never writes:
/// within the cool-down after a flush the policy stays quiet, whatever the
/// document now holds.
pub proof fn lemma_flush_debounce(flushed: DatabaseView, now_ms: u64, later_ms: u64)
    requires
        flushed.last_save_time_ms == now_ms,
        later_ms < now_ms + FLUSH_COOLDOWN_MS,
    ensures
        !flush_due(flushed, later_ms),
{
}

/// Whether the vector holds the given hash.
pub fn contains_u64(v: &Vec<u64>, h: u64) -> (r: bool)
    ensures
        r == v@.contains(h),
{
    let mut i: usize = 0;
    while i < v.len()
        invariant
            i <= v@.len(),
            forall|k: int| 0 <= k < i ==> (#[trigger] v@[k]) != h,
        decreases v@.len() - i,
    {
        if v[i] == h {
            return true;
        }
        i = i + 1;
    }
    false
}

} // verus!
