use localfy::database::{Database, DatabaseDataContainer, NotFoundError};
use localfy::codec::{document_from_str, document_hash, document_to_string};
use localfy::playlist::{Playlist, PlaylistDescriptor};
use localfy::song::{AlbumInfo, Song, TrackRecord};
use localfy::time::ms_to_min_sec;

fn song(path: &str, title: &str, artist: &str, album: &str) -> Song {
    Song::new(path.to_string(), title.to_string(), artist.to_string(), album.to_string())
}

fn track(id: u64, title: &str, artist: &str, album: Option<(u64, &str)>) -> TrackRecord {
    TrackRecord {
        id,
        title: title.to_string(),
        artist: artist.to_string(),
        album: album.map(|(aid, t)| AlbumInfo { id: aid, title: t.to_string() }),
    }
}

#[test]
fn equal_fields_equal_hash() {
    let a = song("/m/a.flac", "One", "Ann", "First");
    let b = song("/m/a.flac", "One", "Ann", "First");
    assert_eq!(a.semantic_hash(), b.semantic_hash());
}

#[test]
fn different_fields_different_hash() {
    let a = song("/m/a.flac", "One", "Ann", "First");
    let b = song("/m/a.flac", "Two", "Ann", "First");
    let c = song("/m/b.flac", "One", "Ann", "First");
    assert_ne!(a.semantic_hash(), b.semantic_hash());
    assert_ne!(a.semantic_hash(), c.semantic_hash());
}

#[test]
fn remote_track_takes_part_in_hash() {
    let mut a = song("/m/a.flac", "One", "Ann", "First");
    let b = a.clone();
    a.remote_track = Some(track(7, "One", "Ann", None));
    assert_ne!(a.semantic_hash(), b.semantic_hash());
}

#[test]
fn insert_with_equal_hash_replaces() {
    let mut data = DatabaseDataContainer::new();
    let mut a = song("/m/a.flac", "One", "Ann", "First");
    a.remote_track = Some(track(7, "One", "Ann", Some((3, "First"))));
    let b = a.clone();
    data.add_song(a);
    assert_eq!(data.get_songs().len(), 1);
    data.add_song(b);
    assert_eq!(data.get_songs().len(), 1);
}

#[test]
fn remove_missing_song_fails_and_changes_nothing() {
    let mut data = DatabaseDataContainer::new();
    data.add_song(song("/m/a.flac", "One", "Ann", "First"));
    let before = document_hash(&data);
    let r = data.remove_song(song("/m/zzz.flac", "Gone", "Bo", "None Such"));
    assert_eq!(r, Err(NotFoundError));
    assert_eq!(document_hash(&data), before);
    assert_eq!(data.get_songs().len(), 1);
}

#[test]
fn remove_present_song_succeeds() {
    let mut data = DatabaseDataContainer::new();
    let a = song("/m/a.flac", "One", "Ann", "First");
    data.add_song(a.clone());
    assert!(data.remove_song(a).is_ok());
    assert_eq!(data.get_songs().len(), 0);
}

fn sample_document() -> DatabaseDataContainer {
    let mut data = DatabaseDataContainer::new();
    let mut a = song("/m/a \"quoted\".flac", "One\\Two", "Ann", "First");
    a.remote_track = Some(track(7, "One\\Two", "Ann", Some((3, "First"))));
    let b = song("/m/b.flac", "Deux", "Bo", "Second");
    data.add_song(a.clone());
    data.add_song(b.clone());
    data.add_playlist(&Playlist {
        id: "1700000000".to_string(),
        name: "Morning".to_string(),
        image: None,
        songs: vec![a.semantic_hash(), b.semantic_hash()],
    });
    data.add_album(
        &AlbumInfo { id: 3, title: "First".to_string() },
        vec![a],
    );
    data
}

#[test]
fn document_round_trip_is_identity() {
    let data = sample_document();
    let text = document_to_string(&data);
    let back = document_from_str(&text);
    assert_eq!(document_hash(&back), document_hash(&data));
    assert_eq!(back.get_songs().len(), 2);
    assert_eq!(back.get_playlists().len(), 1);
    assert_eq!(back.get_playlists()[0].name, "Morning");
    let songs = back.get_songs();
    let orig = data.get_songs();
    for (x, y) in songs.iter().zip(orig.iter()) {
        assert_eq!(x.path, y.path);
        assert_eq!(x.title, y.title);
        assert_eq!(x.artist, y.artist);
        assert_eq!(x.album, y.album);
    }
    let text2 = document_to_string(&back);
    assert_eq!(text, text2);
}

#[test]
fn unreadable_text_loads_the_empty_document() {
    let data = document_from_str("not a library document");
    assert_eq!(data.get_songs().len(), 0);
    assert_eq!(data.get_playlists().len(), 0);
    let empty = document_from_str("");
    assert_eq!(empty.get_songs().len(), 0);
}

#[test]
fn push_to_playlist_twice_is_push_once() {
    let mut data = DatabaseDataContainer::new();
    let a = song("/m/a.flac", "One", "Ann", "First");
    let h = a.semantic_hash();
    data.add_song(a.clone());
    data.add_playlist(&Playlist {
        id: "p1".to_string(),
        name: "Mix".to_string(),
        image: None,
        songs: vec![],
    });
    let descriptor = PlaylistDescriptor {
        id: "p1".to_string(),
        name: "Mix".to_string(),
        image: None,
    };
    data.push_to_playlist(&descriptor, &vec![a.clone()]);
    data.push_to_playlist(&descriptor, &vec![a.clone()]);
    let stored = &data.playlists_ref()[0];
    assert_eq!(stored.songs, vec![h]);
}

#[test]
fn push_to_unknown_playlist_changes_nothing() {
    let mut data = DatabaseDataContainer::new();
    let before = document_hash(&data);
    let descriptor = PlaylistDescriptor {
        id: "p9".to_string(),
        name: "Nowhere".to_string(),
        image: None,
    };
    data.push_to_playlist(&descriptor, &vec![song("/m/a.flac", "One", "Ann", "First")]);
    assert_eq!(document_hash(&data), before);
}

#[test]
fn unhash_resolves_in_order_and_drops_stale() {
    let mut data = DatabaseDataContainer::new();
    let a = song("/m/a.flac", "One", "Ann", "First");
    let b = song("/m/b.flac", "Deux", "Bo", "Second");
    data.add_song(a.clone());
    data.add_song(b.clone());
    data.add_playlist(&Playlist {
        id: "p1".to_string(),
        name: "Mix".to_string(),
        image: None,
        songs: vec![b.semantic_hash(), 12345, a.semantic_hash()],
    });
    let descriptor = PlaylistDescriptor {
        id: "p1".to_string(),
        name: "Mix".to_string(),
        image: None,
    };
    let decoded = data.unhash_playlist_songs(&descriptor).unwrap();
    assert_eq!(decoded.songs.len(), 2);
    assert_eq!(decoded.songs[0].title, "Deux");
    assert_eq!(decoded.songs[1].title, "One");
    assert!(data
        .unhash_playlist_songs(&PlaylistDescriptor {
            id: "x".to_string(),
            name: "Absent".to_string(),
            image: None,
        })
        .is_none());
}

#[test]
fn remove_playlist_by_name() {
    let mut data = DatabaseDataContainer::new();
    data.add_playlist(&Playlist {
        id: "p1".to_string(),
        name: "Mix".to_string(),
        image: None,
        songs: vec![],
    });
    let descriptor = PlaylistDescriptor {
        id: "other-id".to_string(),
        name: "Mix".to_string(),
        image: None,
    };
    assert!(data.remove_playlist(&descriptor).is_ok());
    assert_eq!(data.get_playlists().len(), 0);
    assert_eq!(data.remove_playlist(&descriptor), Err(NotFoundError));
}

#[test]
fn remove_from_playlist_drops_first_occurrence() {
    let mut data = DatabaseDataContainer::new();
    let a = song("/m/a.flac", "One", "Ann", "First");
    let h = a.semantic_hash();
    data.add_song(a.clone());
    data.add_playlist(&Playlist {
        id: "p1".to_string(),
        name: "Mix".to_string(),
        image: None,
        songs: vec![h, 42, h],
    });
    let descriptor = PlaylistDescriptor {
        id: "p1".to_string(),
        name: "Mix".to_string(),
        image: None,
    };
    data.remove_from_playlist(&descriptor, &a);
    assert_eq!(data.playlists_ref()[0].songs, vec![42, h]);
}

#[test]
fn album_upsert_keeps_identity_by_remote_id() {
    let mut data = DatabaseDataContainer::new();
    let a = song("/m/a.flac", "One", "Ann", "First");
    let b = song("/m/b.flac", "Deux", "Bo", "First");
    data.add_song(a.clone());
    data.add_song(b.clone());
    let album = AlbumInfo { id: 3, title: "First".to_string() };
    data.add_album(&album, vec![a.clone()]);
    data.add_album(&album, vec![a.clone(), b.clone()]);
    let albums = data.get_albums();
    assert_eq!(albums.len(), 1);
    assert_eq!(albums[0].tracks.len(), 2);
    let resolved = data.resolve_album(&album);
    assert_eq!(resolved.len(), 2);
    data.remove_song(b).unwrap();
    let resolved = data.resolve_album(&album);
    assert_eq!(resolved.len(), 1);
    assert_eq!(resolved[0].title, "One");
}

#[test]
fn flush_debounce_writes_once_per_window() {
    let data = DatabaseDataContainer::new();
    let mut db = Database::new(data, 0);
    let mut writes = 0u32;

    for i in 0..5u64 {
        db.raw_mut().add_song(song(
            &format!("/m/{i}.flac"),
            &format!("T{i}"),
            "Ann",
            "First",
        ));
    }
    // two dirty checks inside the cool-down: no write yet
    for now in [100u64, 1900] {
        if db.should_flush(now) {
            writes += 1;
            db.mark_flushed(now);
        }
    }
    assert_eq!(writes, 0);
    // first check after expiry writes, the next one does not
    for now in [2000u64, 2100] {
        if db.should_flush(now) {
            writes += 1;
            db.mark_flushed(now);
        }
    }
    assert_eq!(writes, 1);
    // nothing changed since: still quiet after any wait
    assert!(!db.should_flush(10_000));
}

#[test]
fn flush_is_retried_while_unmarked() {
    let mut db = Database::new(DatabaseDataContainer::new(), 0);
    db.raw_mut().add_song(song("/m/a.flac", "One", "Ann", "First"));
    assert!(db.should_flush(2000));
    // the write failed, nothing recorded: the next dirty check still asks
    assert!(db.should_flush(2500));
    let payload = db.encoded();
    assert!(payload.starts_with("{\"tracks\":["));
    db.mark_flushed(2500);
    assert!(!db.should_flush(9999));
}

#[test]
fn ms_to_min_sec_formats_zero_padded() {
    assert_eq!(ms_to_min_sec(0), "00:00");
    assert_eq!(ms_to_min_sec(125_000), "02:05");
    assert_eq!(ms_to_min_sec(59_999), "00:59");
    assert_eq!(ms_to_min_sec(3_600_000), "60:00");
}
