//! The download pipeline: immutable download tasks, live per-track download
//! states, and the manager holding the FIFO task queue and the state table
//! that the interface polls.

use vstd::prelude::*;
use std::collections::VecDeque;
use crate::song::{AlbumInfo, Song, SongView, TrackRecord, TrackRecordView, song_hash};
use crate::playlist::{PlaylistDescriptor, PlaylistDescriptorView};
use crate::database::{
    DatabaseDataContainer, lookup_track, playlist_find, push_absent, song_hashes, songs_view,
};
use crate::playlist::PlaylistView;
use crate::text::string_of_chars;

verus! {

/// Why a stream manifest or track list could not be resolved.
#[derive(Clone, Debug)]
pub struct CatalogError {
    pub message: String,
}

impl View for CatalogError {
    type V = Seq<char>;

    open spec fn view(&self) -> Seq<char> {
        self.message@
    }
}

impl CatalogError {
    /// A field-wise copy; the derived `Clone` says nothing to the verifier.
    pub fn duplicate(&self) -> (r: CatalogError)
        ensures
            r@ == self@,
    {
        CatalogError { message: self.message.clone() }
    }
}

/// The stream qualities the remote catalog offers.
#[derive(Clone, Copy, Debug, PartialEq, Eq, Structural)]
pub enum AudioQuality {
    Normal,
    High,
    Lossless,
    HiRes,
}

/// The configured quality, or the lossless fallback while none is stored.
pub fn quality_or_fallback(quality: Option<AudioQuality>) -> (r: AudioQuality)
    ensures
        r == match quality {
            Some(q) => q,
            None => AudioQuality::Lossless,
        },
{
    match quality {
        Some(q) => q,
        None => AudioQuality::Lossless,
    }
}

/// A resolved stream manifest: where the bytes are and which file
/// extension suits them.
#[derive(Clone, Debug)]
pub struct Manifest {
    pub url: String,
    pub file_ext: String,
}

pub ghost struct ManifestView {
    pub url: Seq<char>,
    pub file_ext: Seq<char>,
}

impl View for Manifest {
    type V = ManifestView;

    open spec fn view(&self) -> ManifestView {
        ManifestView { url: self.url@, file_ext: self.file_ext@ }
    }
}

impl Manifest {
    /// A field-wise copy; the derived `Clone` says nothing to the verifier.
    pub fn duplicate(&self) -> (r: Manifest)
        ensures
            r@ == self@,
    {
        Manifest { url: self.url.clone(), file_ext: self.file_ext.clone() }
    }
}

/// Where one download stands.
#[derive(Clone, Debug)]
pub enum DownloadStatus {
    Idle,
    Queued,
    Downloading,
    Finished,
    Failed(String),
}

pub ghost enum DownloadStatusView {
    Idle,
    Queued,
    Downloading,
    Finished,
    Failed(Seq<char>),
}

impl View for DownloadStatus {
    type V = DownloadStatusView;

    open spec fn view(&self) -> DownloadStatusView {
        match self {
            DownloadStatus::Idle => DownloadStatusView::Idle,
            DownloadStatus::Queued => DownloadStatusView::Queued,
            DownloadStatus::Downloading => DownloadStatusView::Downloading,
            DownloadStatus::Finished => DownloadStatusView::Finished,
            DownloadStatus::Failed(m) => DownloadStatusView::Failed(m@),
        }
    }
}

impl DownloadStatus {
    pub fn is_finished(&self) -> (r: bool)
        ensures
            r == (self@ is Finished),
    {
        match self {
            DownloadStatus::Finished => true,
            _ => false,
        }
    }

    pub fn is_failed(&self) -> (r: bool)
        ensures
            r == (self@ is Failed),
    {
        match self {
            DownloadStatus::Failed(_) => true,
            _ => false,
        }
    }

    /// A field-wise copy; the derived `Clone` says nothing to the verifier.
    pub fn duplicate(&self) -> (r: DownloadStatus)
        ensures
            r@ == self@,
    {
        match self {
            DownloadStatus::Idle => DownloadStatus::Idle,
            DownloadStatus::Queued => DownloadStatus::Queued,
            DownloadStatus::Downloading => DownloadStatus::Downloading,
            DownloadStatus::Finished => DownloadStatus::Finished,
            DownloadStatus::Failed(m) => DownloadStatus::Failed(m.clone()),
        }
    }

    /// The text shown for this status; a failure carries its reason.
    pub fn label(&self) -> (r: String)
        ensures
            r@ == status_label(self@),
    {
        match self {
            DownloadStatus::Idle => String::from_str("None"),
            DownloadStatus::Queued => String::from_str("Queued"),
            DownloadStatus::Downloading => String::from_str("Downloading"),
            DownloadStatus::Finished => String::from_str("Finished"),
            DownloadStatus::Failed(message) => {
                let prefix = String::from_str("Failed with message : ");
                prefix.concat(message.as_str())
            },
        }
    }
}

/// The text shown for a status.
pub open spec fn status_label(s: DownloadStatusView) -> Seq<char> {
    match s {
        DownloadStatusView::Idle => "None"@,
        DownloadStatusView::Queued => "Queued"@,
        DownloadStatusView::Downloading => "Downloading"@,
        DownloadStatusView::Finished => "Finished"@,
        DownloadStatusView::Failed(m) => "Failed with message : "@ + m,
    }
}

/// An instantaneous transfer rate.
#[derive(Clone, Copy, Debug, PartialEq, Eq, Structural)]
pub struct DataRate {
    pub bytes_per_second: u64,
}

/// The rate a byte count over a window of milliseconds works out to,
/// rounded down; an empty window reads as no rate at all.
pub open spec fn rate_of_window(bytes: u64, elapsed_ms: u64) -> u64 {
    if elapsed_ms == 0 {
        0
    } else if bytes as int * 1000 / elapsed_ms as int > u64::MAX {
        u64::MAX
    } else {
        (bytes as int * 1000 / elapsed_ms as int) as u64
    }
}

impl DataRate {
    pub fn new(bytes_per_second: u64) -> (r: DataRate)
        ensures
            r.bytes_per_second == bytes_per_second,
    {
        DataRate { bytes_per_second }
    }

    pub fn bytes_per_second(&self) -> (r: u64)
        ensures
            r == self.bytes_per_second,
    {
        self.bytes_per_second
    }

    /// The rate measured over a rolling window.
    pub fn from_window(bytes: u64, elapsed_ms: u64) -> (r: DataRate)
        ensures
            r.bytes_per_second == rate_of_window(bytes, elapsed_ms),
    {
        if elapsed_ms == 0 {
            DataRate { bytes_per_second: 0 }
        } else {
            let wide: u128 = (bytes as u128) * 1000 / (elapsed_ms as u128);
            if wide > u64::MAX as u128 {
                DataRate { bytes_per_second: u64::MAX }
            } else {
                DataRate { bytes_per_second: wide as u64 }
            }
        }
    }
}

/// The progress fraction in thousandths: zero while the total size is
/// unknown, never above one thousand, exact otherwise.
pub open spec fn progress_permille_of(downloaded: u64, total: u64) -> u32 {
    if total == 0 {
        0
    } else if downloaded >= total {
        1000
    } else {
        (downloaded as int * 1000 / total as int) as u32
    }
}

/// Computes the progress fraction in thousandths. An unknown total (given
/// as zero) reads as no progress rather than as an undefined fraction, and
/// the result never exceeds one thousand.
pub fn progress_permille(downloaded: u64, total: u64) -> (r: u32)
    ensures
        r == progress_permille_of(downloaded, total),
        r <= 1000,
        total == 0 ==> r == 0,
{
    if total == 0 {
        0
    } else if downloaded >= total {
        1000
    } else {
        let wide: u128 = (downloaded as u128) * 1000 / (total as u128);
        assert((downloaded as int) * 1000 / (total as int) < 1000) by (nonlinear_arith)
            requires
                0 < total <= u64::MAX,
                0 <= downloaded < total;
        assert((downloaded as int) * 1000 / (total as int) >= 0) by (nonlinear_arith)
            requires
                0 < total,
                0 <= downloaded;
        wide as u32
    }
}

/// Characters a destination path component may not carry.
pub open spec fn forbidden_char(c: char) -> bool {
    ||| c == '<'
    ||| c == '>'
    ||| c == ':'
    ||| c == '"'
    ||| c == '/'
    ||| c == '\\'
    ||| c == '|'
    ||| c == '?'
    ||| c == '*'
    ||| c == '\''
    ||| c == '.'
}

pub open spec fn sanitize_char(c: char) -> char {
    if forbidden_char(c) {
        '_'
    } else {
        c
    }
}

/// A path component with every forbidden character replaced by an
/// underscore.
pub open spec fn sanitized(s: Seq<char>) -> Seq<char> {
    s.map_values(|c: char| sanitize_char(c))
}

/// Slashes turned into dashes, as titles are prepared before
/// sanitization.
pub open spec fn dashed_slashes(s: Seq<char>) -> Seq<char> {
    s.map_values(|c: char| if c == '/' || c == '\\' { '-' } else { c })
}

/// The destination of a track under the configured download root:
/// `root/artist/album/title.ext`, the album level omitted when the track
/// names no album, every component sanitized.
pub open spec fn derived_path(base: Seq<char>, track: TrackRecordView, ext: Seq<char>) -> Seq<char> {
    let dir = match track.album {
        Some(a) => base + seq!['/'] + sanitized(track.artist) + seq!['/'] + sanitized(a.title),
        None => base + seq!['/'] + sanitized(track.artist),
    };
    dir + seq!['/'] + sanitized(dashed_slashes(track.title)) + seq!['.'] + ext
}

fn sanitize_char_exec(c: char) -> (r: char)
    ensures
        r == sanitize_char(c),
{
    if c == '<' || c == '>' || c == ':' || c == '"' || c == '/' || c == '\\' || c == '|'
        || c == '?' || c == '*' || c == '\'' || c == '.' {
        '_'
    } else {
        c
    }
}

fn push_str_chars(out: &mut Vec<char>, s: &str)
    ensures
        final(out)@ == old(out)@ + s@,
{
    let ghost base = out@;
    let n = s.unicode_len();
    let mut i: usize = 0;
    while i < n
        invariant
            i <= n,
            n == s@.len(),
            out@ == base + s@.take(i as int),
        decreases n - i,
    {
        out.push(s.get_char(i));
        proof {
            assert(base + s@.take(i as int + 1) =~= (base + s@.take(i as int)).push(s@[i as int]));
        }
        i = i + 1;
    }
    proof {
        assert(s@.take(n as int) =~= s@);
    }
}

fn push_sanitized(out: &mut Vec<char>, s: &str)
    ensures
        final(out)@ == old(out)@ + sanitized(s@),
{
    let ghost base = out@;
    let n = s.unicode_len();
    let mut i: usize = 0;
    proof {
        assert(sanitized(s@.take(0)) =~= Seq::<char>::empty());
        assert(out@ =~= base + sanitized(s@.take(0)));
    }
    while i < n
        invariant
            i <= n,
            n == s@.len(),
            out@ == base + sanitized(s@.take(i as int)),
        decreases n - i,
    {
        let c = sanitize_char_exec(s.get_char(i));
        out.push(c);
        proof {
            assert(sanitized(s@.take(i as int + 1))
                =~= sanitized(s@.take(i as int)).push(sanitize_char(s@[i as int])));
            assert(out@ =~= base + sanitized(s@.take(i as int + 1)));
        }
        i = i + 1;
    }
    proof {
        assert(s@.take(n as int) =~= s@);
    }
}

fn push_title_component(out: &mut Vec<char>, s: &str)
    ensures
        final(out)@ == old(out)@ + sanitized(dashed_slashes(s@)),
{
    let ghost base = out@;
    let n = s.unicode_len();
    let mut i: usize = 0;
    proof {
        assert(sanitized(dashed_slashes(s@.take(0))) =~= Seq::<char>::empty());
        assert(out@ =~= base + sanitized(dashed_slashes(s@.take(0))));
    }
    while i < n
        invariant
            i <= n,
            n == s@.len(),
            out@ == base + sanitized(dashed_slashes(s@.take(i as int))),
        decreases n - i,
    {
        let c0 = s.get_char(i);
        let dashed = if c0 == '/' || c0 == '\\' { '-' } else { c0 };
        let c = sanitize_char_exec(dashed);
        out.push(c);
        proof {
            let prev = s@.take(i as int);
            let next = s@.take(i as int + 1);
            assert(dashed_slashes(next) =~= dashed_slashes(prev).push(
                if s@[i as int] == '/' || s@[i as int] == '\\' { '-' } else { s@[i as int] }));
            assert(sanitized(dashed_slashes(next))
                =~= sanitized(dashed_slashes(prev)).push(sanitize_char(
                    if s@[i as int] == '/' || s@[i as int] == '\\' { '-' } else { s@[i as int] })));
            assert(out@ =~= base + sanitized(dashed_slashes(next)));
        }
        i = i + 1;
    }
    proof {
        assert(s@.take(n as int) =~= s@);
    }
}

/// Builds the destination path of a track under the download root.
pub fn build_destination_path(base: &String, track: &TrackRecord, ext: &String) -> (r: String)
    ensures
        r@ == derived_path(base@, track@, ext@),
{
    let mut out: Vec<char> = Vec::new();
    push_str_chars(&mut out, base.as_str());
    out.push('/');
    push_sanitized(&mut out, track.artist.as_str());
    match &track.album {
        Some(a) => {
            out.push('/');
            push_sanitized(&mut out, a.title.as_str());
        },
        None => {},
    }
    out.push('/');
    push_title_component(&mut out, track.title.as_str());
    out.push('.');
    push_str_chars(&mut out, ext.as_str());
    proof {
        assert(out@ =~= derived_path(base@, track@, ext@));
    }
    string_of_chars(&out)
}

/// One file to fetch: the remote track, its resolved manifest, the
/// destination path, and the playlist the song joins on success, if any.
#[derive(Clone, Debug)]
pub struct Download {
    pub track: TrackRecord,
    pub manifest: Manifest,
    pub path: String,
    pub add_to_playlist: Option<PlaylistDescriptor>,
}

pub ghost struct DownloadView {
    pub track: TrackRecordView,
    pub manifest: ManifestView,
    pub path: Seq<char>,
    pub add_to_playlist: Option<PlaylistDescriptorView>,
}

impl View for Download {
    type V = DownloadView;

    open spec fn view(&self) -> DownloadView {
        DownloadView {
            track: self.track@,
            manifest: self.manifest@,
            path: self.path@,
            add_to_playlist: match self.add_to_playlist {
                Some(ref p) => Some(p@),
                None => None,
            },
        }
    }
}

/// The song a finished download leaves in the library.
pub open spec fn finished_song(d: DownloadView) -> SongView {
    SongView {
        path: d.path,
        title: d.track.title,
        artist: d.track.artist,
        album: match d.track.album {
            Some(a) => a.title,
            None => "Unknown"@,
        },
        remote_track: Some(d.track),
    }
}

impl Download {
    /// Describes one fetch. A destination path is required.
    pub fn new(
        track: TrackRecord,
        manifest: Manifest,
        path: Option<String>,
        add_to_playlist: Option<PlaylistDescriptor>,
    ) -> (r: Download)
        requires
            path is Some,
        ensures
            r@ == (DownloadView {
                track: track@,
                manifest: manifest@,
                path: path.unwrap()@,
                add_to_playlist: match add_to_playlist {
                    Some(p) => Some(p@),
                    None => None,
                },
            }),
    {
        let path = path.unwrap();
        Download { track, manifest, path, add_to_playlist }
    }

    pub fn track(&self) -> (r: &TrackRecord)
        ensures
            r@ == self@.track,
    {
        &self.track
    }

    pub fn manifest(&self) -> (r: &Manifest)
        ensures
            r@ == self@.manifest,
    {
        &self.manifest
    }

    /// A field-wise copy; the derived `Clone` says nothing to the verifier.
    pub fn duplicate(&self) -> (r: Download)
        ensures
            r@ == self@,
    {
        Download {
            track: self.track.duplicate(),
            manifest: self.manifest.duplicate(),
            path: self.path.clone(),
            add_to_playlist: match &self.add_to_playlist {
                Some(p) => Some(p.duplicate()),
                None => None,
            },
        }
    }

    /// The library-side effect of one finished download: the song is
    /// upserted under its semantic hash, and, when the task names a target
    /// playlist, its hash joins that playlist unless already present.
    pub fn on_finished(&self, data: &mut DatabaseDataContainer)
        requires
            old(data).wf(),
        ensures
            final(data).wf(),
            lookup_track(final(data)@.tracks, song_hash(finished_song(self@)))
                == Some(finished_song(self@)),
            forall|h: u64| h != song_hash(finished_song(self@))
                ==> #[trigger] lookup_track(final(data)@.tracks, h)
                    == lookup_track(old(data)@.tracks, h),
            final(data)@.tracks.len()
                == if lookup_track(old(data)@.tracks, song_hash(finished_song(self@))) is Some {
                old(data)@.tracks.len() + 0
            } else {
                old(data)@.tracks.len() + 1
            },
            final(data)@.albums == old(data)@.albums,
            match self@.add_to_playlist {
                None => final(data)@.playlists == old(data)@.playlists,
                Some(pd) => match playlist_find(old(data)@.playlists, pd.name) {
                    None => final(data)@.playlists == old(data)@.playlists,
                    Some(i) => final(data)@.playlists
                        =~= old(data)@.playlists.update(i, (PlaylistView {
                        songs: push_absent(
                            old(data)@.playlists[i].songs,
                            seq![song_hash(finished_song(self@))],
                        ),
                        ..old(data)@.playlists[i]
                    })),
                },
            },
    {
        let song = Song::new_with_track(self.path.clone(), self.track.duplicate());
        proof {
            assert(song@ == finished_song(self@));
        }
        match &self.add_to_playlist {
            None => {
                data.add_song(song);
            },
            Some(pd) => {
                data.add_song(song.duplicate());
                let mut batch: Vec<Song> = Vec::new();
                batch.push(song);
                proof {
                    assert(song_hashes(batch@) =~= seq![song_hash(finished_song(self@))]);
                }
                data.push_to_playlist(pd, &batch);
            },
        }
    }
}

/// The live record of one download, keyed by its track's identity.
#[derive(Clone, Debug)]
pub struct DownloadState {
    pub download: Download,
    pub downloaded: u64,
    pub total_size: u64,
    pub speed: DataRate,
    pub progress_permille: u32,
    pub status: DownloadStatus,
    pub started_at_ms: u64,
    pub window_bytes: u64,
    pub window_start_ms: u64,
}

pub ghost struct DownloadStateView {
    pub download: DownloadView,
    pub downloaded: u64,
    pub total_size: u64,
    pub speed: DataRate,
    pub progress_permille: u32,
    pub status: DownloadStatusView,
    pub started_at_ms: u64,
    pub window_bytes: u64,
    pub window_start_ms: u64,
}

impl View for DownloadState {
    type V = DownloadStateView;

    open spec fn view(&self) -> DownloadStateView {
        DownloadStateView {
            download: self.download@,
            downloaded: self.downloaded,
            total_size: self.total_size,
            speed: self.speed,
            progress_permille: self.progress_permille,
            status: self.status@,
            started_at_ms: self.started_at_ms,
            window_bytes: self.window_bytes,
            window_start_ms: self.window_start_ms,
        }
    }
}

/// The state a download starts in once its connection is up: nothing
/// transferred, no rate, no progress, counting from `now_ms`.
pub open spec fn fresh_state(d: DownloadView, total_size: u64, now_ms: u64) -> DownloadStateView {
    DownloadStateView {
        download: d,
        downloaded: 0,
        total_size,
        speed: DataRate { bytes_per_second: 0 },
        progress_permille: 0,
        status: DownloadStatusView::Downloading,
        started_at_ms: now_ms,
        window_bytes: 0,
        window_start_ms: now_ms,
    }
}

impl DownloadState {
    pub fn new(download: Download, total_size: u64, now_ms: u64) -> (r: DownloadState)
        ensures
            r@ == fresh_state(download@, total_size, now_ms),
    {
        DownloadState {
            download,
            downloaded: 0,
            total_size,
            speed: DataRate::new(0),
            progress_permille: 0,
            status: DownloadStatus::Downloading,
            started_at_ms: now_ms,
            window_bytes: 0,
            window_start_ms: now_ms,
        }
    }

    /// A field-wise copy; the derived `Clone` says nothing to the verifier.
    pub fn duplicate(&self) -> (r: DownloadState)
        ensures
            r@ == self@,
    {
        DownloadState {
            download: self.download.duplicate(),
            downloaded: self.downloaded,
            total_size: self.total_size,
            speed: self.speed,
            progress_permille: self.progress_permille,
            status: self.status.duplicate(),
            started_at_ms: self.started_at_ms,
            window_bytes: self.window_bytes,
            window_start_ms: self.window_start_ms,
        }
    }
}

/// Addition on byte counters that pins at the top instead of wrapping.
pub open spec fn sat_add(a: u64, b: u64) -> u64 {
    if a + b > u64::MAX {
        u64::MAX
    } else {
        (a + b) as u64
    }
}

fn sat_add_exec(a: u64, b: u64) -> (r: u64)
    ensures
        r == sat_add(a, b),
{
    if b > u64::MAX - a {
        u64::MAX
    } else {
        a + b
    }
}

/// One received chunk folded into a download state: the byte counters
/// grow, the rate is measured over the rolling one-second window (which
/// resets once full), and the progress fraction is recomputed.
pub open spec fn chunk_applied(s: DownloadStateView, len: u64, now_ms: u64) -> DownloadStateView {
    let downloaded = sat_add(s.downloaded, len);
    let wb = sat_add(s.window_bytes, len);
    let elapsed: u64 = if now_ms >= s.window_start_ms {
        (now_ms - s.window_start_ms) as u64
    } else {
        0
    };
    DownloadStateView {
        downloaded,
        window_bytes: if elapsed >= 1000 { 0 } else { wb },
        window_start_ms: if elapsed >= 1000 { now_ms } else { s.window_start_ms },
        speed: (DataRate { bytes_per_second: rate_of_window(wb, elapsed) }),
        progress_permille: progress_permille_of(downloaded, s.total_size),
        status: DownloadStatusView::Downloading,
        ..s
    }
}

/// Keeping every task of a different track: the queue predicate of a
/// removal.
pub open spec fn other_track(track_id: u64) -> spec_fn(DownloadView) -> bool {
    |d: DownloadView| d.track.id != track_id
}

/// The first state keyed by the given track identity, if any.
pub open spec fn state_find(states: Seq<DownloadStateView>, track_id: u64) -> Option<int>
    decreases states.len(),
{
    if states.len() == 0 {
        None
    } else if states.first().download.track.id == track_id {
        Some(0int)
    } else {
        match state_find(states.drop_first(), track_id) {
            Some(i) => Some(i + 1),
            None => None,
        }
    }
}

pub proof fn lemma_state_find_at(states: Seq<DownloadStateView>, track_id: u64, i: int)
    requires
        0 <= i < states.len(),
        states[i].download.track.id == track_id,
        forall|k: int| 0 <= k < i ==> (#[trigger] states[k].download.track.id) != track_id,
    ensures
        state_find(states, track_id) == Some(i),
    decreases i,
{
    if i > 0 {
        lemma_state_find_at(states.drop_first(), track_id, i - 1);
    }
}

/// What a successful or failed search says of the entries.
pub proof fn lemma_state_find_props(states: Seq<DownloadStateView>, track_id: u64)
    ensures
        match state_find(states, track_id) {
            Some(i) => 0 <= i < states.len()
                && states[i].download.track.id == track_id
                && (forall|k: int| 0 <= k < i
                    ==> (#[trigger] states[k].download.track.id) != track_id),
            None => forall|k: int| 0 <= k < states.len()
                ==> (#[trigger] states[k].download.track.id) != track_id,
        },
    decreases states.len(),
{
    if states.len() > 0 {
        lemma_state_find_props(states.drop_first(), track_id);
        if states.first().download.track.id != track_id {
            match state_find(states.drop_first(), track_id) {
                Some(i) => {
                    assert forall|k: int| 0 <= k < i + 1
                        implies (#[trigger] states[k].download.track.id) != track_id by {
                        if k > 0 {
                            assert(states.drop_first()[k - 1] == states[k]);
                            assert(states.drop_first()[k - 1].download.track.id != track_id);
                        }
                    }
                },
                None => {
                    assert forall|k: int| 0 <= k < states.len()
                        implies (#[trigger] states[k].download.track.id) != track_id by {
                        if k > 0 {
                            assert(states.drop_first()[k - 1] == states[k]);
                            assert(states.drop_first()[k - 1].download.track.id != track_id);
                        }
                    }
                },
            }
        }
    }
}

pub proof fn lemma_state_find_absent(states: Seq<DownloadStateView>, track_id: u64)
    requires
        forall|k: int| 0 <= k < states.len()
            ==> (#[trigger] states[k].download.track.id) != track_id,
    ensures
        state_find(states, track_id) is None,
    decreases states.len(),
{
    if states.len() > 0 {
        lemma_state_find_absent(states.drop_first(), track_id);
    }
}

/// The shared heart of the pipeline: the FIFO queue of pending tasks and
/// the per-track state table the interface polls. States are never
/// evicted; a task dequeued once is in flight and no longer removable.
pub struct DownloadManager {
    download_queue: VecDeque<Download>,
    download_state: Vec<DownloadState>,
    max_concurrency: usize,
}

pub ghost struct DownloadManagerView {
    pub queue: Seq<DownloadView>,
    pub states: Seq<DownloadStateView>,
    pub max_concurrency: usize,
}

impl View for DownloadManager {
    type V = DownloadManagerView;

    closed spec fn view(&self) -> DownloadManagerView {
        DownloadManagerView {
            queue: self.download_queue@.map_values(|d: Download| d@),
            states: self.download_state@.map_values(|s: DownloadState| s@),
            max_concurrency: self.max_concurrency,
        }
    }
}

impl DownloadManager {
    /// An empty pipeline for the given worker count.
    pub fn new(max_concurrency: usize) -> (r: DownloadManager)
        ensures
            r@.queue =~= Seq::<DownloadView>::empty(),
            r@.states =~= Seq::<DownloadStateView>::empty(),
            r@.max_concurrency == max_concurrency,
    {
        let r = DownloadManager {
            download_queue: VecDeque::new(),
            download_state: Vec::new(),
            max_concurrency,
        };
        proof {
            assert(r@.queue =~= Seq::<DownloadView>::empty());
            assert(r@.states =~= Seq::<DownloadStateView>::empty());
        }
        r
    }

    pub fn max_concurrency(&self) -> (r: usize)
        ensures
            r == self@.max_concurrency,
    {
        self.max_concurrency
    }

    /// Appends the task at the queue's tail.
    pub fn enqueue(&mut self, download: Download)
        ensures
            final(self)@.queue =~= old(self)@.queue.push(download@),
            final(self)@.states == old(self)@.states,
            final(self)@.max_concurrency == old(self)@.max_concurrency,
    {
        self.download_queue.push_back(download);
    }

    /// Pops the queue's head, if any.
    pub fn dequeue(&mut self) -> (r: Option<Download>)
        ensures
            final(self)@.states == old(self)@.states,
            final(self)@.max_concurrency == old(self)@.max_concurrency,
            match r {
                Some(d) => old(self)@.queue.len() > 0
                    && d@ == old(self)@.queue.first()
                    && final(self)@.queue =~= old(self)@.queue.drop_first(),
                None => old(self)@.queue.len() == 0 && final(self)@.queue == old(self)@.queue,
            },
    {
        let r = self.download_queue.pop_front();
        proof {
            if old(self).download_queue@.len() > 0 {
                assert(final(self)@.queue =~= old(self)@.queue.drop_first());
            }
        }
        r
    }

    /// A snapshot of the pending tasks, head first.
    pub fn get_queue(&self) -> (r: Vec<Download>)
        ensures
            r@.map_values(|d: Download| d@) =~= self@.queue,
    {
        let mut r: Vec<Download> = Vec::new();
        let mut i: usize = 0;
        while i < self.download_queue.len()
            invariant
                i <= self.download_queue@.len(),
                r@.len() == i,
                forall|k: int| 0 <= k < i
                    ==> (#[trigger] r@[k])@ == self.download_queue@[k]@,
            decreases self.download_queue@.len() - i,
        {
            r.push(self.download_queue[i].duplicate());
            i = i + 1;
        }
        r
    }

    /// A snapshot of every download state, in insertion order.
    pub fn get_downloads(&self) -> (r: Vec<DownloadState>)
        ensures
            r@.map_values(|s: DownloadState| s@) =~= self@.states,
    {
        let mut r: Vec<DownloadState> = Vec::new();
        let mut i: usize = 0;
        while i < self.download_state.len()
            invariant
                i <= self.download_state@.len(),
                r@.len() == i,
                forall|k: int| 0 <= k < i
                    ==> (#[trigger] r@[k])@ == self.download_state@[k]@,
            decreases self.download_state@.len() - i,
        {
            r.push(self.download_state[i].duplicate());
            i = i + 1;
        }
        r
    }

    /// The position of the state keyed by the given track identity.
    fn find_state(&self, track_id: u64) -> (r: Option<usize>)
        ensures
            match r {
                Some(i) => i < self@.states.len()
                    && state_find(self@.states, track_id) == Some(i as int),
                None => state_find(self@.states, track_id) is None,
            },
    {
        let ghost states = self@.states;
        let mut i: usize = 0;
        while i < self.download_state.len()
            invariant
                i <= states.len(),
                states == self@.states,
                states.len() == self.download_state@.len(),
                forall|k: int| 0 <= k < i
                    ==> (#[trigger] states[k].download.track.id) != track_id,
            decreases states.len() - i,
        {
            if self.download_state[i].download.track.id == track_id {
                proof {
                    lemma_state_find_at(states, track_id, i as int);
                }
                return Some(i);
            }
            i = i + 1;
        }
        proof {
            lemma_state_find_absent(states, track_id);
        }
        None
    }

    /// A snapshot of the state of the given track's download, if one was
    /// ever started.
    pub fn get_download(&self, track_id: u64) -> (r: Option<DownloadState>)
        ensures
            match state_find(self@.states, track_id) {
                Some(i) => r matches Some(s) && s@ == self@.states[i],
                None => r is None,
            },
    {
        match self.find_state(track_id) {
            Some(i) => Some(self.download_state[i].duplicate()),
            None => None,
        }
    }

    /// Drops every pending task for the given track from the queue; a task
    /// already dequeued is past removal.
    pub fn remove_download(&mut self, download: Download)
        ensures
            final(self)@.states == old(self)@.states,
            final(self)@.max_concurrency == old(self)@.max_concurrency,
            final(self)@.queue =~= old(self)@.queue.filter(other_track(download@.track.id)),
    {
        let ghost pred = other_track(download.track.id);
        let ghost q0 = self@.queue;
        let mut kept: VecDeque<Download> = VecDeque::new();
        let mut i: usize = 0;
        proof {
            reveal(Seq::filter);
            assert(q0.take(0) =~= Seq::<DownloadView>::empty());
            assert(kept@.map_values(|d: Download| d@) =~= q0.take(0).filter(pred));
        }
        while i < self.download_queue.len()
            invariant
                i <= self.download_queue@.len(),
                q0 == self.download_queue@.map_values(|d: Download| d@),
                q0.len() == self.download_queue@.len(),
                pred == other_track(download.track.id),
                kept@.map_values(|d: Download| d@) =~= q0.take(i as int).filter(pred),
            decreases self.download_queue@.len() - i,
        {
            let ghost prefix = q0.take(i as int);
            if self.download_queue[i].track.id != download.track.id {
                kept.push_back(self.download_queue[i].duplicate());
            }
            proof {
                reveal(Seq::filter);
                let nxt = q0.take(i as int + 1);
                assert(nxt =~= prefix.push(q0[i as int]));
                assert(nxt.drop_last() =~= prefix);
                assert(nxt.last() == q0[i as int]);
                assert(kept@.map_values(|d: Download| d@) =~= nxt.filter(pred));
            }
            i = i + 1;
        }
        proof {
            assert(q0.take(q0.len() as int) =~= q0);
        }
        self.download_queue = kept;
    }

    /// The task of the given track once its download has reached a
    /// terminal state, and nothing before then.
    pub fn downloaded_or_failed(&self, track_id: u64) -> (r: Option<Download>)
        ensures
            match state_find(self@.states, track_id) {
                Some(i) => {
                    if self@.states[i].status is Finished || self@.states[i].status is Failed {
                        r matches Some(d) && d@ == self@.states[i].download
                    } else {
                        r is None
                    }
                },
                None => r is None,
            },
    {
        match self.find_state(track_id) {
            None => None,
            Some(i) => {
                let state = &self.download_state[i];
                if state.status.is_finished() || state.status.is_failed() {
                    Some(state.download.duplicate())
                } else {
                    None
                }
            },
        }
    }
}


/// The task `enqueue_single` builds for a resolved manifest.
pub open spec fn task_of(
    track: TrackRecordView,
    m: ManifestView,
    base: Seq<char>,
    pl: Option<PlaylistDescriptorView>,
) -> DownloadView {
    DownloadView {
        track,
        manifest: m,
        path: derived_path(base, track, m.file_ext),
        add_to_playlist: pl,
    }
}

/// The views of a list of manifest resolutions.
pub open spec fn results_view(ms: Seq<Result<Manifest, CatalogError>>)
    -> Seq<Result<ManifestView, Seq<char>>> {
    ms.map_values(|r: Result<Manifest, CatalogError>| match r {
        Ok(m) => Ok(m@),
        Err(e) => Err(e@),
    })
}

/// The views of a list of track records.
pub open spec fn track_views(ts: Seq<TrackRecord>) -> Seq<TrackRecordView> {
    ts.map_values(|t: TrackRecord| t@)
}

/// The position of the first failed resolution, or the length when every
/// one succeeded.
pub open spec fn first_err(ms: Seq<Result<ManifestView, Seq<char>>>) -> int
    decreases ms.len(),
{
    if ms.len() == 0 {
        0
    } else if ms.first() is Err {
        0
    } else {
        1 + first_err(ms.drop_first())
    }
}

pub proof fn lemma_first_err_at(ms: Seq<Result<ManifestView, Seq<char>>>, i: int)
    requires
        0 <= i < ms.len(),
        ms[i] is Err,
        forall|k: int| 0 <= k < i ==> (#[trigger] ms[k]) is Ok,
    ensures
        first_err(ms) == i,
    decreases i,
{
    if i > 0 {
        lemma_first_err_at(ms.drop_first(), i - 1);
    }
}

pub proof fn lemma_first_err_all_ok(ms: Seq<Result<ManifestView, Seq<char>>>)
    requires
        forall|k: int| 0 <= k < ms.len() ==> (#[trigger] ms[k]) is Ok,
    ensures
        first_err(ms) == ms.len(),
    decreases ms.len(),
{
    if ms.len() > 0 {
        lemma_first_err_all_ok(ms.drop_first());
    }
}

/// The tasks an album enqueue builds from the first `upto` tracks.
pub open spec fn album_tasks(
    ts: Seq<TrackRecordView>,
    ms: Seq<Result<ManifestView, Seq<char>>>,
    base: Seq<char>,
    upto: int,
) -> Seq<DownloadView> {
    Seq::new(upto as nat, |k: int| task_of(ts[k], match ms[k] {
        Ok(m) => m,
        Err(_) => arbitrary(),
    }, base, None))
}

/// The songs the given tracks' downloads finished with: one per track
/// whose state reached `Finished`, in the order asked for.
pub open spec fn finished_songs_of(states: Seq<DownloadStateView>, ids: Seq<u64>) -> Seq<SongView>
    decreases ids.len(),
{
    if ids.len() == 0 {
        Seq::empty()
    } else {
        let rest = finished_songs_of(states, ids.drop_first());
        match state_find(states, ids.first()) {
            Some(i) => if states[i].status is Finished {
                seq![finished_song(states[i].download)] + rest
            } else {
                rest
            },
            None => rest,
        }
    }
}

pub proof fn lemma_finished_songs_append(
    states: Seq<DownloadStateView>,
    a: Seq<u64>,
    b: Seq<u64>,
)
    ensures
        finished_songs_of(states, a + b)
            == finished_songs_of(states, a) + finished_songs_of(states, b),
    decreases a.len(),
{
    if a.len() == 0 {
        assert(a + b =~= b);
        assert(finished_songs_of(states, a) + finished_songs_of(states, b)
            =~= finished_songs_of(states, b));
    } else {
        assert((a + b).first() == a.first());
        assert((a + b).drop_first() =~= a.drop_first() + b);
        lemma_finished_songs_append(states, a.drop_first(), b);
        match state_find(states, a.first()) {
            Some(i) => {
                if states[i].status is Finished {
                    assert(seq![finished_song(states[i].download)]
                        + (finished_songs_of(states, a.drop_first())
                            + finished_songs_of(states, b))
                        =~= (seq![finished_song(states[i].download)]
                            + finished_songs_of(states, a.drop_first()))
                            + finished_songs_of(states, b));
                }
            },
            None => {},
        }
    }
}

/// The semantic hashes of a list of song views.
pub open spec fn view_hashes(ss: Seq<SongView>) -> Seq<u64> {
    ss.map_values(|v: SongView| song_hash(v))
}

impl DownloadManager {
    /// Opens the live record of a download: a fresh `Downloading` state is
    /// stored under the task's track identity, replacing any earlier state
    /// of that track.
    pub fn start_download(&mut self, download: Download, total_size: u64, now_ms: u64)
        ensures
            final(self)@.queue == old(self)@.queue,
            final(self)@.max_concurrency == old(self)@.max_concurrency,
            match state_find(old(self)@.states, download@.track.id) {
                Some(i) => final(self)@.states
                    =~= old(self)@.states.update(i, fresh_state(download@, total_size, now_ms)),
                None => final(self)@.states
                    =~= old(self)@.states.push(fresh_state(download@, total_size, now_ms)),
            },
    {
        let ghost states0 = self@.states;
        let id = download.track.id;
        let state = DownloadState::new(download, total_size, now_ms);
        let ghost sv = state@;
        match self.find_state(id) {
            Some(i) => {
                self.download_state.remove(i);
                self.download_state.insert(i, state);
                proof {
                    assert(final(self)@.states =~= states0.update(i as int, sv));
                }
            },
            None => {
                self.download_state.push(state);
                proof {
                    assert(final(self)@.states =~= states0.push(state@));
                }
            },
        }
    }

    /// Records a terminal failure for the given track, keeping everything
    /// else of its state; a track without a state is left without one.
    pub fn fail_download(&mut self, track_id: u64, message: String)
        ensures
            final(self)@.queue == old(self)@.queue,
            final(self)@.max_concurrency == old(self)@.max_concurrency,
            match state_find(old(self)@.states, track_id) {
                Some(i) => final(self)@.states =~= old(self)@.states.update(i, (DownloadStateView {
                    status: DownloadStatusView::Failed(message@),
                    ..old(self)@.states[i]
                })),
                None => final(self)@.states == old(self)@.states,
            },
    {
        let ghost states0 = self@.states;
        match self.find_state(track_id) {
            Some(i) => {
                let mut st = self.download_state.remove(i);
                st.status = DownloadStatus::Failed(message);
                self.download_state.insert(i, st);
                proof {
                    assert(final(self)@.states =~= states0.update(i as int, (DownloadStateView {
                        status: DownloadStatusView::Failed(message@),
                        ..states0[i as int]
                    })));
                }
            },
            None => {},
        }
    }

    /// Folds one received chunk into the track's state: byte counters,
    /// rolling rate window and progress fraction move as `chunk_applied`
    /// says; a track without a state is left without one.
    pub fn record_chunk(&mut self, track_id: u64, chunk_len: u64, now_ms: u64)
        ensures
            final(self)@.queue == old(self)@.queue,
            final(self)@.max_concurrency == old(self)@.max_concurrency,
            match state_find(old(self)@.states, track_id) {
                Some(i) => final(self)@.states =~= old(self)@.states.update(
                    i,
                    chunk_applied(old(self)@.states[i], chunk_len, now_ms),
                ),
                None => final(self)@.states == old(self)@.states,
            },
    {
        let ghost states0 = self@.states;
        match self.find_state(track_id) {
            Some(i) => {
                let mut st = self.download_state.remove(i);
                st.downloaded = sat_add_exec(st.downloaded, chunk_len);
                st.window_bytes = sat_add_exec(st.window_bytes, chunk_len);
                let elapsed: u64 = if now_ms >= st.window_start_ms {
                    now_ms - st.window_start_ms
                } else {
                    0
                };
                st.speed = DataRate::from_window(st.window_bytes, elapsed);
                if elapsed >= 1000 {
                    st.window_bytes = 0;
                    st.window_start_ms = now_ms;
                }
                st.progress_permille = progress_permille(st.downloaded, st.total_size);
                st.status = DownloadStatus::Downloading;
                proof {
                    assert(st@ == chunk_applied(states0[i as int], chunk_len, now_ms));
                }
                self.download_state.insert(i, st);
                proof {
                    assert(final(self)@.states =~= states0.update(
                        i as int,
                        chunk_applied(states0[i as int], chunk_len, now_ms),
                    ));
                }
            },
            None => {},
        }
    }

    /// Marks the track's download as finished and hands back its task, for
    /// the on-finished library effect; a track without a state yields
    /// nothing and is left without one.
    pub fn finish_download(&mut self, track_id: u64) -> (r: Option<Download>)
        ensures
            final(self)@.queue == old(self)@.queue,
            final(self)@.max_concurrency == old(self)@.max_concurrency,
            match state_find(old(self)@.states, track_id) {
                Some(i) => {
                    &&& final(self)@.states =~= old(self)@.states.update(i, (DownloadStateView {
                        status: DownloadStatusView::Finished,
                        ..old(self)@.states[i]
                    }))
                    &&& r matches Some(d) && d@ == old(self)@.states[i].download
                },
                None => r is None && final(self)@.states == old(self)@.states,
            },
    {
        let ghost states0 = self@.states;
        match self.find_state(track_id) {
            Some(i) => {
                let mut st = self.download_state.remove(i);
                st.status = DownloadStatus::Finished;
                let task = st.download.duplicate();
                self.download_state.insert(i, st);
                proof {
                    assert(final(self)@.states =~= states0.update(i as int, (DownloadStateView {
                        status: DownloadStatusView::Finished,
                        ..states0[i as int]
                    })));
                }
                Some(task)
            },
            None => None,
        }
    }

    /// Builds the task of one track from its resolved manifest and queues
    /// it; a failed resolution is handed back and queues nothing.
    pub fn enqueue_single(
        &mut self,
        track: TrackRecord,
        manifest: &Result<Manifest, CatalogError>,
        base_folder: &String,
        add_to_playlist: Option<&PlaylistDescriptor>,
    ) -> (r: Result<(), CatalogError>)
        ensures
            final(self)@.states == old(self)@.states,
            final(self)@.max_concurrency == old(self)@.max_concurrency,
            match manifest {
                Ok(m) => r is Ok && final(self)@.queue =~= old(self)@.queue.push(task_of(
                    track@,
                    m@,
                    base_folder@,
                    match add_to_playlist {
                        Some(p) => Some(p@),
                        None => None,
                    },
                )),
                Err(e) => (r matches Err(e2) && e2@ == e@)
                    && final(self)@.queue == old(self)@.queue,
            },
    {
        match manifest {
            Err(e) => Err(e.duplicate()),
            Ok(m) => {
                let path = build_destination_path(base_folder, &track, &m.file_ext);
                let download = Download::new(track, m.duplicate(), Some(path), match add_to_playlist {
                    Some(p) => Some(p.duplicate()),
                    None => None,
                });
                self.enqueue(download);
                Ok(())
            },
        }
    }

    /// Queues one task per album track, in order, stopping at the first
    /// track whose manifest resolution failed: that failure is handed back
    /// at once, the tracks before it stay queued, and no album record is
    /// touched here.
    pub fn enqueue_album(
        &mut self,
        tracks: &Vec<TrackRecord>,
        manifests: &Vec<Result<Manifest, CatalogError>>,
        base_folder: &String,
    ) -> (r: Result<(), CatalogError>)
        requires
            tracks@.len() == manifests@.len(),
        ensures
            final(self)@.states == old(self)@.states,
            final(self)@.max_concurrency == old(self)@.max_concurrency,
            final(self)@.queue =~= old(self)@.queue + album_tasks(
                track_views(tracks@),
                results_view(manifests@),
                base_folder@,
                first_err(results_view(manifests@)),
            ),
            if first_err(results_view(manifests@)) == manifests@.len() {
                r is Ok
            } else {
                r matches Err(e) && Err::<ManifestView, Seq<char>>(e@)
                    == results_view(manifests@)[first_err(results_view(manifests@))]
            },
    {
        let ghost ts = track_views(tracks@);
        let ghost ms = results_view(manifests@);
        let ghost q0 = self@.queue;
        let mut i: usize = 0;
        proof {
            assert(q0 + album_tasks(ts, ms, base_folder@, 0) =~= q0);
        }
        while i < tracks.len()
            invariant
                i <= tracks@.len(),
                tracks@.len() == manifests@.len(),
                ts == track_views(tracks@),
                ms == results_view(manifests@),
                q0 == old(self)@.queue,
                self@.states == old(self)@.states,
                self@.max_concurrency == old(self)@.max_concurrency,
                self@.queue =~= q0 + album_tasks(ts, ms, base_folder@, i as int),
                forall|k: int| 0 <= k < i ==> (#[trigger] ms[k]) is Ok,
            decreases tracks@.len() - i,
        {
            let outcome = self.enqueue_single(
                tracks[i].duplicate(),
                &manifests[i],
                base_folder,
                None,
            );
            match outcome {
                Err(e) => {
                    proof {
                        lemma_first_err_at(ms, i as int);
                        assert(self@.queue =~= q0 + album_tasks(ts, ms, base_folder@, i as int));
                    }
                    return Err(e);
                },
                Ok(()) => {
                    proof {
                        assert(ms[i as int] is Ok);
                        assert(album_tasks(ts, ms, base_folder@, i as int + 1)
                            =~= album_tasks(ts, ms, base_folder@, i as int).push(task_of(
                            ts[i as int],
                            match ms[i as int] { Ok(m) => m, Err(_) => arbitrary() },
                            base_folder@,
                            None,
                        )));
                        assert(self@.queue
                            =~= q0 + album_tasks(ts, ms, base_folder@, i as int + 1));
                    }
                },
            }
            i = i + 1;
        }
        proof {
            lemma_first_err_all_ok(ms);
        }
        Ok(())
    }

    /// The songs the given tracks' downloads actually finished with;
    /// failed or unknown tracks are skipped.
    pub fn finished_album_songs(&self, track_ids: &Vec<u64>) -> (r: Vec<Song>)
        ensures
            songs_view(r@) == finished_songs_of(self@.states, track_ids@),
    {
        let mut r: Vec<Song> = Vec::new();
        let mut i: usize = 0;
        proof {
            assert(track_ids@.take(0) =~= Seq::<u64>::empty());
            assert(songs_view(r@) =~= finished_songs_of(self@.states, track_ids@.take(0)));
        }
        while i < track_ids.len()
            invariant
                i <= track_ids@.len(),
                songs_view(r@) == finished_songs_of(self@.states, track_ids@.take(i as int)),
            decreases track_ids@.len() - i,
        {
            let ghost prefix = track_ids@.take(i as int);
            let ghost single = seq![track_ids@[i as int]];
            proof {
                assert(track_ids@.take(i as int + 1) =~= prefix + single);
                lemma_finished_songs_append(self@.states, prefix, single);
                assert(single.first() == track_ids@[i as int]);
                assert(single.drop_first() =~= Seq::<u64>::empty());
                assert(finished_songs_of(self@.states, Seq::<u64>::empty())
                    =~= Seq::<SongView>::empty());
            }
            match self.find_state(track_ids[i]) {
                Some(j) => {
                    let st = &self.download_state[j];
                    if st.status.is_finished() {
                        let song = Song::new_with_track(
                            st.download.path.clone(),
                            st.download.track.duplicate(),
                        );
                        proof {
                            assert(song@ == finished_song(self@.states[j as int].download));
                            assert(finished_songs_of(self@.states, single)
                                =~= seq![finished_song(self@.states[j as int].download)]);
                        }
                        r.push(song);
                        proof {
                            assert(songs_view(r@) =~= finished_songs_of(self@.states, prefix)
                                + finished_songs_of(self@.states, single));
                        }
                    } else {
                        proof {
                            assert(finished_songs_of(self@.states, single)
                                =~= Seq::<SongView>::empty());
                        }
                    }
                },
                None => {
                    proof {
                        assert(finished_songs_of(self@.states, single)
                            =~= Seq::<SongView>::empty());
                    }
                },
            }
            proof {
                assert(songs_view(r@)
                    =~= finished_songs_of(self@.states, track_ids@.take(i as int + 1)));
            }
            i = i + 1;
        }
        proof {
            assert(track_ids@.take(track_ids@.len() as int) =~= track_ids@);
        }
        r
    }

    /// Writes the album record once its tracks have reached their terminal
    /// states: the songs that finished become the album's stored track
    /// list, failed ones are skipped.
    pub fn complete_album(
        &self,
        data: &mut DatabaseDataContainer,
        album: &AlbumInfo,
        track_ids: &Vec<u64>,
    )
        requires
            old(data).wf(),
        ensures
            final(data).wf(),
            final(data)@.tracks == old(data)@.tracks,
            final(data)@.playlists == old(data)@.playlists,
            match crate::database::album_find(old(data)@.albums, album@.id) {
                Some(i) => final(data)@.albums
                    =~= old(data)@.albums.update(i, (crate::database::AlbumHashedView {
                    album: old(data)@.albums[i].album,
                    tracks: view_hashes(finished_songs_of(self@.states, track_ids@)),
                })),
                None => final(data)@.albums
                    =~= old(data)@.albums.push((crate::database::AlbumHashedView {
                    album: album@,
                    tracks: view_hashes(finished_songs_of(self@.states, track_ids@)),
                })),
            },
    {
        let songs = self.finished_album_songs(track_ids);
        proof {
            assert(song_hashes(songs@)
                =~= view_hashes(finished_songs_of(self@.states, track_ids@)));
        }
        data.add_album(album, songs);
    }
}

} // verus!
