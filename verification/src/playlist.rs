//! Playlists: an ordered, append-mostly list of song hashes under a stable
//! id and a display name.
//!
//! Lookups throughout the library key on the display name, as the stored
//! data always has; a rename therefore breaks earlier references. Whether
//! the stable id should take that role instead is an open product question.

use vstd::prelude::*;
use crate::song::Song;

verus! {

/// The identity and display fields of a playlist, without its contents.
#[derive(Clone, Debug)]
pub struct PlaylistDescriptor {
    pub id: String,
    pub name: String,
    pub image: Option<String>,
}

pub ghost struct PlaylistDescriptorView {
    pub id: Seq<char>,
    pub name: Seq<char>,
    pub image: Option<Seq<char>>,
}

impl View for PlaylistDescriptor {
    type V = PlaylistDescriptorView;

    open spec fn view(&self) -> PlaylistDescriptorView {
        PlaylistDescriptorView {
            id: self.id@,
            name: self.name@,
            image: match self.image {
                Some(ref p) => Some(p@),
                None => None,
            },
        }
    }
}

impl PlaylistDescriptor {
    /// A field-wise copy; the derived `Clone` says nothing to the verifier.
    pub fn duplicate(&self) -> (r: PlaylistDescriptor)
        ensures
            r@ == self@,
    {
        PlaylistDescriptor {
            id: self.id.clone(),
            name: self.name.clone(),
            image: match &self.image {
                Some(p) => Some(p.clone()),
                None => None,
            },
        }
    }
}

/// A stored playlist: descriptor fields plus the hashes of its songs, in
/// order. Hashes rather than whole songs keep the document small.
#[derive(Clone, Debug)]
pub struct Playlist {
    pub id: String,
    pub name: String,
    pub image: Option<String>,
    pub songs: Vec<u64>,
}

pub ghost struct PlaylistView {
    pub id: Seq<char>,
    pub name: Seq<char>,
    pub image: Option<Seq<char>>,
    pub songs: Seq<u64>,
}

impl View for Playlist {
    type V = PlaylistView;

    open spec fn view(&self) -> PlaylistView {
        PlaylistView {
            id: self.id@,
            name: self.name@,
            image: match self.image {
                Some(ref p) => Some(p@),
                None => None,
            },
            songs: self.songs@,
        }
    }
}

impl Playlist {
    /// A field-wise copy; the derived `Clone` says nothing to the verifier.
    pub fn duplicate(&self) -> (r: Playlist)
        ensures
            r@ == self@,
    {
        Playlist {
            id: self.id.clone(),
            name: self.name.clone(),
            image: match &self.image {
                Some(p) => Some(p.clone()),
                None => None,
            },
            songs: self.songs.clone(),
        }
    }

    /// The descriptor of this playlist, contents dropped.
    pub fn descriptor(&self) -> (r: PlaylistDescriptor)
        ensures
            r@.id == self@.id,
            r@.name == self@.name,
            r@.image == self@.image,
    {
        PlaylistDescriptor {
            id: self.id.clone(),
            name: self.name.clone(),
            image: match &self.image {
                Some(p) => Some(p.clone()),
                None => None,
            },
        }
    }
}

/// A playlist resolved against the track map: the songs themselves, in the
/// playlist's order, with unresolvable hashes dropped.
#[derive(Clone, Debug)]
pub struct DecodedPlaylist {
    pub descriptor: PlaylistDescriptor,
    pub songs: Vec<Song>,
}

} // verus!
