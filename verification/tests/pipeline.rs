use localfy::database::DatabaseDataContainer;
use localfy::download::{
    build_destination_path, progress_permille, quality_or_fallback, AudioQuality, CatalogError,
    DataRate, Download, DownloadManager, DownloadStatus, Manifest,
};
use localfy::player::{PlayerQueue, PlaybackMode};
use localfy::playlist::{Playlist, PlaylistDescriptor};
use localfy::song::{AlbumInfo, Song, TrackRecord};
use localfy::worker::{parent_dir_of, WorkerSession};

fn track(id: u64, title: &str, artist: &str, album: Option<(u64, &str)>) -> TrackRecord {
    TrackRecord {
        id,
        title: title.to_string(),
        artist: artist.to_string(),
        album: album.map(|(aid, t)| AlbumInfo { id: aid, title: t.to_string() }),
    }
}

fn manifest(url: &str) -> Manifest {
    Manifest { url: url.to_string(), file_ext: "flac".to_string() }
}

#[test]
fn progress_is_never_out_of_range() {
    // unknown total: clamp to zero instead of an undefined fraction
    assert_eq!(progress_permille(123_456, 0), 0);
    assert_eq!(progress_permille(0, 0), 0);
    // ordinary fractions are exact thousandths
    assert_eq!(progress_permille(250_000, 1_000_000), 250);
    assert_eq!(progress_permille(1, 3), 333);
    // and never exceed one
    assert_eq!(progress_permille(5, 3), 1000);
    assert_eq!(progress_permille(u64::MAX, 1), 1000);
}

#[test]
fn data_rate_over_window() {
    assert_eq!(DataRate::from_window(500_000, 500).bytes_per_second(), 1_000_000);
    assert_eq!(DataRate::from_window(123, 0).bytes_per_second(), 0);
}

#[test]
fn queue_is_first_in_first_out() {
    let mut mgr = DownloadManager::new(10);
    let a = Download::new(track(1, "One", "Ann", None), manifest("http://x/1"),
        Some("/dl/a.flac".to_string()), None);
    let b = Download::new(track(2, "Two", "Bo", None), manifest("http://x/2"),
        Some("/dl/b.flac".to_string()), None);
    mgr.enqueue(a);
    mgr.enqueue(b);
    assert_eq!(mgr.get_queue().len(), 2);
    assert_eq!(mgr.dequeue().unwrap().track.id, 1);
    assert_eq!(mgr.dequeue().unwrap().track.id, 2);
    assert!(mgr.dequeue().is_none());
}

#[test]
fn remove_download_drops_pending_entries() {
    let mut mgr = DownloadManager::new(10);
    let a = Download::new(track(1, "One", "Ann", None), manifest("http://x/1"),
        Some("/dl/a.flac".to_string()), None);
    let b = Download::new(track(2, "Two", "Bo", None), manifest("http://x/2"),
        Some("/dl/b.flac".to_string()), None);
    mgr.enqueue(a.clone());
    mgr.enqueue(b);
    mgr.remove_download(a);
    let left = mgr.get_queue();
    assert_eq!(left.len(), 1);
    assert_eq!(left[0].track.id, 2);
}

#[test]
fn sanitized_destination_path() {
    let base = "/dl".to_string();
    let t = track(1, "So/What?", "AC/DC", Some((9, "Back: Black")));
    let path = build_destination_path(&base, &t, &"flac".to_string());
    assert_eq!(path, "/dl/AC_DC/Back_ Black/So-What_.flac");
    assert_eq!(parent_dir_of(&path), "/dl/AC_DC/Back_ Black");
}

#[test]
fn enqueue_single_failure_queues_nothing() {
    let mut mgr = DownloadManager::new(10);
    let err: Result<Manifest, CatalogError> =
        Err(CatalogError { message: "no stream".to_string() });
    let r = mgr.enqueue_single(track(1, "One", "Ann", None), &err, &"/dl".to_string(), None);
    assert!(r.is_err());
    assert_eq!(r.unwrap_err().message, "no stream");
    assert_eq!(mgr.get_queue().len(), 0);
}

#[test]
fn album_with_failing_track_stops_at_the_failure() {
    let mut mgr = DownloadManager::new(10);
    let mut data = DatabaseDataContainer::new();
    let tracks = vec![
        track(1, "One", "Ann", Some((9, "First"))),
        track(2, "Two", "Ann", Some((9, "First"))),
        track(3, "Three", "Ann", Some((9, "First"))),
    ];
    let manifests: Vec<Result<Manifest, CatalogError>> = vec![
        Ok(manifest("http://x/1")),
        Err(CatalogError { message: "resolution failed".to_string() }),
        Ok(manifest("http://x/3")),
    ];
    let r = mgr.enqueue_album(&tracks, &manifests, &"/dl".to_string());
    // the failure comes back at once; the album record is never written
    assert!(r.is_err());
    assert_eq!(mgr.get_queue().len(), 1);
    assert_eq!(data.get_albums().len(), 0);
    // the track that was already queued still runs to its own terminal state
    let d = mgr.dequeue().unwrap();
    let mut session = WorkerSession::begin(d);
    session.on_connected(4);
    session.on_dir_ensured(&mut mgr, 0);
    session.on_file_created();
    session.on_chunk(&mut mgr, 4, 1);
    session.on_stream_end(&mut mgr, &mut data);
    assert!(mgr.get_download(1).unwrap().status.is_finished());
}

#[test]
fn single_download_runs_to_finished() {
    let mut mgr = DownloadManager::new(10);
    let mut data = DatabaseDataContainer::new();
    let t = track(11, "Hit", "Ann", Some((9, "First")));
    let ok: Result<Manifest, CatalogError> = Ok(manifest("http://x/hit"));
    mgr.enqueue_single(t, &ok, &"/dl".to_string(), None).unwrap();

    let d = mgr.dequeue().unwrap();
    let path = d.path.clone();
    assert_eq!(path, "/dl/Ann/First/Hit.flac");

    let mut session = WorkerSession::begin(d);
    session.on_connected(1_000_000);
    session.on_dir_ensured(&mut mgr, 1_000);
    session.on_file_created();
    for chunk in 0..4u64 {
        session.on_chunk(&mut mgr, 250_000, 1_000 + chunk);
    }
    session.on_stream_end(&mut mgr, &mut data);

    let state = mgr.get_download(11).unwrap();
    assert!(state.status.is_finished());
    assert!(!state.status.is_failed());
    assert_eq!(state.downloaded, 1_000_000);
    assert_eq!(state.total_size, 1_000_000);
    assert_eq!(state.progress_permille, 1000);

    let songs = data.get_songs();
    assert_eq!(songs.len(), 1);
    assert_eq!(songs[0].path, path);
    assert_eq!(songs[0].title, "Hit");
    assert_eq!(songs[0].album, "First");
}

#[test]
fn finished_download_joins_target_playlist_once() {
    let mut mgr = DownloadManager::new(10);
    let mut data = DatabaseDataContainer::new();
    data.add_playlist(&Playlist {
        id: "p1".to_string(),
        name: "Mix".to_string(),
        image: None,
        songs: vec![],
    });
    let descriptor = PlaylistDescriptor {
        id: "p1".to_string(),
        name: "Mix".to_string(),
        image: None,
    };
    let t = track(21, "Hit", "Ann", None);
    let ok: Result<Manifest, CatalogError> = Ok(manifest("http://x/hit"));
    mgr.enqueue_single(t, &ok, &"/dl".to_string(), Some(&descriptor)).unwrap();
    let d = mgr.dequeue().unwrap();
    let mut session = WorkerSession::begin(d);
    session.on_connected(0);
    session.on_dir_ensured(&mut mgr, 0);
    session.on_file_created();
    session.on_chunk(&mut mgr, 10, 1);
    session.on_stream_end(&mut mgr, &mut data);

    assert_eq!(data.playlists_ref()[0].songs.len(), 1);
    let expected = data.get_songs()[0].semantic_hash();
    assert_eq!(data.playlists_ref()[0].songs[0], expected);
    // progress with an unknown total stays clamped to zero until the end
    let state = mgr.get_download(21).unwrap();
    assert_eq!(state.progress_permille, 0);
}

#[test]
fn failures_leave_a_terminal_record() {
    let mut mgr = DownloadManager::new(10);
    let d = Download::new(track(5, "Lost", "Bo", None), manifest("http://x/5"),
        Some("/dl/lost.flac".to_string()), None);
    assert!(mgr.downloaded_or_failed(5).is_none());
    let mut session = WorkerSession::begin(d);
    session.on_connect_failed(&mut mgr, "connection refused".to_string(), 0);
    let state = mgr.get_download(5).unwrap();
    assert!(state.status.is_failed());
    assert_eq!(
        state.status.label(),
        "Failed with message : connection refused"
    );
    // a terminal state answers the album waiter
    assert!(mgr.downloaded_or_failed(5).is_some());
}

#[test]
fn file_creation_failure_is_recorded() {
    let mut mgr = DownloadManager::new(10);
    let data = DatabaseDataContainer::new();
    let d = Download::new(track(6, "Blocked", "Bo", None), manifest("http://x/6"),
        Some("/dl/blocked.flac".to_string()), None);
    let mut session = WorkerSession::begin(d);
    session.on_connected(100);
    session.on_dir_ensured(&mut mgr, 0);
    session.on_file_failed(&mut mgr, "permission denied".to_string());
    let state = mgr.get_download(6).unwrap();
    assert!(state.status.is_failed());
    assert_eq!(data.get_songs().len(), 0);
}

#[test]
fn complete_album_collects_only_finished_tracks() {
    let mut mgr = DownloadManager::new(10);
    let mut data = DatabaseDataContainer::new();
    let album = AlbumInfo { id: 9, title: "First".to_string() };
    let ok1: Result<Manifest, CatalogError> = Ok(manifest("http://x/1"));
    let ok2: Result<Manifest, CatalogError> = Ok(manifest("http://x/2"));
    mgr.enqueue_single(track(1, "One", "Ann", Some((9, "First"))), &ok1, &"/dl".to_string(), None)
        .unwrap();
    mgr.enqueue_single(track(2, "Two", "Ann", Some((9, "First"))), &ok2, &"/dl".to_string(), None)
        .unwrap();

    let d1 = mgr.dequeue().unwrap();
    let mut s1 = WorkerSession::begin(d1);
    s1.on_connected(4);
    s1.on_dir_ensured(&mut mgr, 0);
    s1.on_file_created();
    s1.on_chunk(&mut mgr, 4, 1);
    s1.on_stream_end(&mut mgr, &mut data);

    let d2 = mgr.dequeue().unwrap();
    let mut s2 = WorkerSession::begin(d2);
    s2.on_connected(4);
    s2.on_dir_ensured(&mut mgr, 0);
    s2.on_file_created();
    s2.on_stream_failed(&mut mgr, "reset by peer".to_string());

    mgr.complete_album(&mut data, &album, &vec![1, 2]);
    let albums = data.get_albums();
    assert_eq!(albums.len(), 1);
    assert_eq!(albums[0].tracks.len(), 1);
    assert_eq!(albums[0].tracks[0].title, "One");
}

#[test]
fn quality_falls_back_to_lossless() {
    assert_eq!(quality_or_fallback(None), AudioQuality::Lossless);
    assert_eq!(quality_or_fallback(Some(AudioQuality::High)), AudioQuality::High);
}

#[test]
fn status_labels() {
    assert_eq!(DownloadStatus::Queued.label(), "Queued");
    assert_eq!(DownloadStatus::Downloading.label(), "Downloading");
    assert_eq!(DownloadStatus::Finished.label(), "Finished");
    assert_eq!(DownloadStatus::Idle.label(), "None");
}

fn sample_song(n: u64) -> Song {
    Song::new(
        format!("/m/{n}.flac"),
        format!("T{n}"),
        "Ann".to_string(),
        "First".to_string(),
    )
}

#[test]
fn player_walks_playlist_in_order() {
    let mut q = PlayerQueue::default();
    q.set_playlist(&vec![sample_song(0), sample_song(1), sample_song(2)]);
    assert_eq!(q.get_next_song().unwrap().title, "T0");
    assert_eq!(q.current_index, Some(0));
    assert_eq!(q.get_next_song().unwrap().title, "T1");
    assert_eq!(q.get_next_song().unwrap().title, "T2");
    // past the end, the playlist starts over
    assert_eq!(q.get_next_song().unwrap().title, "T0");
    assert_eq!(q.current_index, Some(0));
}

#[test]
fn one_shot_queue_plays_ahead_of_playlist() {
    let mut q = PlayerQueue::default();
    q.set_playlist(&vec![sample_song(0), sample_song(1)]);
    q.add_to_queue(&sample_song(9));
    assert_eq!(q.get_next_song().unwrap().title, "T9");
    assert_eq!(q.get_next_song().unwrap().title, "T0");
}

#[test]
fn previous_steps_back() {
    let mut q = PlayerQueue::default();
    q.set_playlist(&vec![sample_song(0), sample_song(1), sample_song(2)]);
    let _ = q.get_next_song();
    let _ = q.get_next_song();
    assert_eq!(q.current_index, Some(1));
    assert_eq!(q.get_previous_song().unwrap().title, "T0");
    assert_eq!(q.current_index, Some(0));
}

#[test]
fn shuffle_positions_are_a_permutation() {
    let mut q = PlayerQueue::default();
    q.set_playlist(&vec![
        sample_song(0),
        sample_song(1),
        sample_song(2),
        sample_song(3),
        sample_song(4),
    ]);
    q.playback_mode = PlaybackMode::Shuffle;
    q.generate_shuffle_positions();
    let mut order = q.shuffle_positions.clone();
    order.sort();
    assert_eq!(order, vec![0, 1, 2, 3, 4]);
}

#[test]
fn sync_selection_swaps_playlist_and_seeks_clicked_song() {
    let mut q = PlayerQueue::default();
    let songs = vec![sample_song(0), sample_song(1), sample_song(2)];
    let hashes: Vec<u64> = songs.iter().map(|s| s.semantic_hash()).collect();
    q.sync_selection(&songs, &hashes, &songs[1]);
    assert_eq!(q.playlist.len(), 3);
    assert_eq!(q.current_index, Some(1));
    // already in line: a later click changes nothing here
    q.sync_selection(&songs, &hashes, &songs[2]);
    assert_eq!(q.playlist.len(), 3);
    assert_eq!(q.current_index, Some(1));
}
