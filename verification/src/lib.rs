//! Core of a local music library manager: a persistent, hash-keyed library of
//! downloaded songs, albums and playlists, and the download pipeline that
//! fills it (FIFO task queue, per-track progress table, worker transitions,
//! and a debounced flush policy for the on-disk document).

pub mod text;
pub mod codec;
pub mod database;
pub mod download;
pub mod player;
pub mod playlist;
pub mod song;
pub mod time;
pub mod worker;
