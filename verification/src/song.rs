//! Songs and the records of the remote catalog they came from, together with
//! the semantic hash that keys a song in the library.
//!
//! Two songs are the same persisted entity exactly when their semantic
//! fields (path, title, artist, album name and the optional remote track
//! record) coincide; the library stores songs under a 64-bit digest of those
//! fields, deterministic in the fields alone.

use vstd::prelude::*;
use vstd::wrapping::u64_specs;

verus! {

/// What the library keeps of a remote album record.
#[derive(Clone, Debug)]
pub struct AlbumInfo {
    pub id: u64,
    pub title: String,
}

pub ghost struct AlbumInfoView {
    pub id: u64,
    pub title: Seq<char>,
}

impl View for AlbumInfo {
    type V = AlbumInfoView;

    open spec fn view(&self) -> AlbumInfoView {
        AlbumInfoView { id: self.id, title: self.title@ }
    }
}

/// What the library keeps of a remote track record.
#[derive(Clone, Debug)]
pub struct TrackRecord {
    pub id: u64,
    pub title: String,
    pub artist: String,
    pub album: Option<AlbumInfo>,
}

pub ghost struct TrackRecordView {
    pub id: u64,
    pub title: Seq<char>,
    pub artist: Seq<char>,
    pub album: Option<AlbumInfoView>,
}

impl View for TrackRecord {
    type V = TrackRecordView;

    open spec fn view(&self) -> TrackRecordView {
        TrackRecordView {
            id: self.id,
            title: self.title@,
            artist: self.artist@,
            album: match self.album {
                Some(a) => Some(a@),
                None => None,
            },
        }
    }
}

/// One persisted song: where it lies on disk, its display fields, and the
/// remote track record it was downloaded from, if any.
#[derive(Clone, Debug)]
pub struct Song {
    pub path: String,
    pub title: String,
    pub artist: String,
    pub album: String,
    pub remote_track: Option<TrackRecord>,
}

pub ghost struct SongView {
    pub path: Seq<char>,
    pub title: Seq<char>,
    pub artist: Seq<char>,
    pub album: Seq<char>,
    pub remote_track: Option<TrackRecordView>,
}

impl View for Song {
    type V = SongView;

    open spec fn view(&self) -> SongView {
        SongView {
            path: self.path@,
            title: self.title@,
            artist: self.artist@,
            album: self.album@,
            remote_track: match self.remote_track {
                Some(t) => Some(t@),
                None => None,
            },
        }
    }
}

pub const HASH_SEED: u64 = 0xcbf29ce484222325;
pub const HASH_PRIME: u64 = 0x100000001b3;
pub const MARK_END: u64 = 0x110000;
pub const MARK_NONE: u64 = 0x110001;
pub const MARK_SOME: u64 = 0x110002;

/// One mixing step of the digest.
pub open spec fn mix(h: u64, x: u64) -> u64 {
    u64_specs::wrapping_mul(h ^ x, HASH_PRIME)
}

/// Folds the characters of `s` into `h`, then an end marker.
pub open spec fn hash_chars(h: u64, s: Seq<char>) -> u64
    decreases s.len(),
{
    if s.len() == 0 {
        mix(h, MARK_END)
    } else {
        hash_chars(mix(h, s.first() as u64), s.drop_first())
    }
}

/// Folds an optional album record into `h`.
pub open spec fn hash_album_info(h: u64, a: Option<AlbumInfoView>) -> u64 {
    match a {
        None => mix(h, MARK_NONE),
        Some(info) => hash_chars(mix(mix(h, MARK_SOME), info.id), info.title),
    }
}

/// Folds an optional remote track record into `h`.
pub open spec fn hash_track(h: u64, t: Option<TrackRecordView>) -> u64 {
    match t {
        None => mix(h, MARK_NONE),
        Some(tr) => hash_album_info(
            hash_chars(hash_chars(mix(mix(h, MARK_SOME), tr.id), tr.title), tr.artist),
            tr.album,
        ),
    }
}

/// The semantic hash of a song: a digest of its path, title, artist, album
/// name and remote track record, and of nothing else.
pub open spec fn song_hash(s: SongView) -> u64 {
    hash_track(
        hash_chars(hash_chars(hash_chars(hash_chars(HASH_SEED, s.path), s.title), s.artist), s.album),
        s.remote_track,
    )
}

fn mix_step(h: u64, x: u64) -> (r: u64)
    ensures
        r == mix(h, x),
{
    (h ^ x).wrapping_mul(HASH_PRIME)
}

fn hash_chars_exec(h0: u64, s: &str) -> (r: u64)
    ensures
        r == hash_chars(h0, s@),
{
    let n = s.unicode_len();
    let mut h = h0;
    let mut i: usize = 0;
    proof {
        assert(s@.skip(0) =~= s@);
    }
    while i < n
        invariant
            i <= n,
            n == s@.len(),
            hash_chars(h, s@.skip(i as int)) == hash_chars(h0, s@),
        decreases n - i,
    {
        let c = s.get_char(i);
        proof {
            assert(s@.skip(i as int).first() == c);
            assert(s@.skip(i as int).drop_first() =~= s@.skip(i as int + 1));
        }
        h = mix_step(h, c as u64);
        i = i + 1;
    }
    proof {
        assert(s@.skip(n as int) =~= Seq::<char>::empty());
    }
    mix_step(h, MARK_END)
}

fn hash_album_info_exec(h: u64, a: &Option<AlbumInfo>) -> (r: u64)
    ensures
        r == hash_album_info(h, match a {
            Some(info) => Some(info@),
            None => None,
        }),
{
    match a {
        None => mix_step(h, MARK_NONE),
        Some(info) => hash_chars_exec(mix_step(mix_step(h, MARK_SOME), info.id), info.title.as_str()),
    }
}

fn hash_track_exec(h: u64, t: &Option<TrackRecord>) -> (r: u64)
    ensures
        r == hash_track(h, match t {
            Some(tr) => Some(tr@),
            None => None,
        }),
{
    match t {
        None => mix_step(h, MARK_NONE),
        Some(tr) => {
            let h1 = mix_step(mix_step(h, MARK_SOME), tr.id);
            let h2 = hash_chars_exec(h1, tr.title.as_str());
            let h3 = hash_chars_exec(h2, tr.artist.as_str());
            hash_album_info_exec(h3, &tr.album)
        },
    }
}

/// Folds a vector of characters into the digest.
pub fn hash_chars_vec(h0: u64, v: &Vec<char>) -> (r: u64)
    ensures
        r == hash_chars(h0, v@),
{
    let mut h = h0;
    let mut i: usize = 0;
    proof {
        assert(v@.skip(0) =~= v@);
    }
    while i < v.len()
        invariant
            i <= v@.len(),
            hash_chars(h, v@.skip(i as int)) == hash_chars(h0, v@),
        decreases v@.len() - i,
    {
        let c = v[i];
        proof {
            assert(v@.skip(i as int).first() == c);
            assert(v@.skip(i as int).drop_first() =~= v@.skip(i as int + 1));
        }
        h = mix_step(h, c as u64);
        i = i + 1;
    }
    proof {
        assert(v@.skip(v@.len() as int) =~= Seq::<char>::empty());
    }
    mix_step(h, MARK_END)
}

impl Song {
    /// A song with no remote track record attached.
    pub fn new(path: String, title: String, artist: String, album: String) -> (r: Song)
        ensures
            r@ == (SongView {
                path: path@,
                title: title@,
                artist: artist@,
                album: album@,
                remote_track: None,
            }),
    {
        Song { path, title, artist, album, remote_track: None }
    }

    /// The song a finished download of `track` leaves at `path`; the album
    /// name falls back to a placeholder when the record names none.
    pub fn new_with_track(path: String, track: TrackRecord) -> (r: Song)
        ensures
            r@.path == path@,
            r@.title == track@.title,
            r@.artist == track@.artist,
            r@.album == match track@.album {
                Some(a) => a.title,
                None => "Unknown"@,
            },
            r@.remote_track == Some(track@),
    {
        let album = match &track.album {
            Some(a) => a.title.clone(),
            None => String::from_str("Unknown"),
        };
        let title = track.title.clone();
        let artist = track.artist.clone();
        Song { path, title, artist, album, remote_track: Some(track) }
    }

    pub fn get_artist(&self) -> (r: String)
        ensures
            r@ == self@.artist,
    {
        self.artist.clone()
    }

    /// The semantic hash that keys this song in the library.
    pub fn semantic_hash(&self) -> (r: u64)
        ensures
            r == song_hash(self@),
    {
        let h1 = hash_chars_exec(HASH_SEED, self.path.as_str());
        let h2 = hash_chars_exec(h1, self.title.as_str());
        let h3 = hash_chars_exec(h2, self.artist.as_str());
        let h4 = hash_chars_exec(h3, self.album.as_str());
        hash_track_exec(h4, &self.remote_track)
    }
}

/// Equal semantic fields give equal semantic hashes: the digest depends on
/// the song's path, title, artist, album and remote track record alone.
pub proof fn lemma_song_hash_deterministic(a: SongView, b: SongView)
    requires
        a.path == b.path,
        a.title == b.title,
        a.artist == b.artist,
        a.album == b.album,
        a.remote_track == b.remote_track,
    ensures
        song_hash(a) == song_hash(b),
{
}

impl AlbumInfo {
    /// A field-wise copy; the derived `Clone` says nothing to the verifier.
    pub fn duplicate(&self) -> (r: AlbumInfo)
        ensures
            r@ == self@,
    {
        AlbumInfo { id: self.id, title: self.title.clone() }
    }
}

impl TrackRecord {
    /// A field-wise copy; the derived `Clone` says nothing to the verifier.
    pub fn duplicate(&self) -> (r: TrackRecord)
        ensures
            r@ == self@,
    {
        TrackRecord {
            id: self.id,
            title: self.title.clone(),
            artist: self.artist.clone(),
            album: match &self.album {
                Some(a) => Some(a.duplicate()),
                None => None,
            },
        }
    }
}

impl Song {
    /// A field-wise copy; the derived `Clone` says nothing to the verifier.
    pub fn duplicate(&self) -> (r: Song)
        ensures
            r@ == self@,
    {
        Song {
            path: self.path.clone(),
            title: self.title.clone(),
            artist: self.artist.clone(),
            album: self.album.clone(),
            remote_track: match &self.remote_track {
                Some(t) => Some(t.duplicate()),
                None => None,
            },
        }
    }
}

pub fn album_info_eq(a: &AlbumInfo, b: &AlbumInfo) -> (r: bool)
    ensures
        r == (a@ == b@),
{
    let r = a.id == b.id && a.title == b.title;
    proof {
        if r {
            assert(a@ == b@);
        }
    }
    r
}

pub fn track_record_eq(a: &TrackRecord, b: &TrackRecord) -> (r: bool)
    ensures
        r == (a@ == b@),
{
    let albums_eq = match (&a.album, &b.album) {
        (None, None) => true,
        (Some(x), Some(y)) => album_info_eq(x, y),
        _ => false,
    };
    let r = a.id == b.id && a.title == b.title && a.artist == b.artist && albums_eq;
    proof {
        if r {
            assert(a@ == b@);
        }
    }
    r
}

pub fn song_eq(a: &Song, b: &Song) -> (r: bool)
    ensures
        r == (a@ == b@),
{
    let tracks_eq = match (&a.remote_track, &b.remote_track) {
        (None, None) => true,
        (Some(x), Some(y)) => track_record_eq(x, y),
        _ => false,
    };
    let r = a.path == b.path && a.title == b.title && a.artist == b.artist && a.album == b.album
        && tracks_eq;
    proof {
        if r {
            assert(a@ == b@);
        }
    }
    r
}

} // verus!
