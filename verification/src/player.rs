//! The playback queue: the current playlist, a one-shot queue jumped ahead
//! of it, the whole library, and the shuffle order. The audio engine itself
//! is an outside sink; everything here is the bookkeeping that decides what
//! plays next.

use vstd::prelude::*;
use std::collections::VecDeque;
use rand::seq::SliceRandom;
use crate::song::{Song, SongView, song_hash};
use crate::database::song_hashes;

verus! {

#[derive(Clone, Copy, Debug, PartialEq, Eq, Structural)]
pub enum PlaybackMode {
    Repeat,
    Shuffle,
    Normal,
}

/// Relies on rand's `SliceRandom::shuffle`: it permutes the slice in place
/// by swaps, so what comes back holds exactly the elements that went in;
/// which order comes out is up to the generator.
#[verifier::external_body]
fn shuffle_in_place(v: &mut Vec<usize>)
    ensures
        final(v)@.to_multiset() == old(v)@.to_multiset(),
        final(v)@.len() == old(v)@.len(),
{
    v.shuffle(&mut rand::thread_rng());
}

/// The identity order on `n` positions.
pub open spec fn identity_positions(n: nat) -> Seq<usize> {
    Seq::new(n, |i: int| i as usize)
}

/// Where the queue looks for the song after position `index`.
pub open spec fn next_position(mode: PlaybackMode, shuffle: Seq<usize>, index: int) -> int {
    if mode == PlaybackMode::Shuffle {
        if 0 <= index + 1 < shuffle.len() {
            shuffle[index + 1] as int
        } else {
            0
        }
    } else {
        index + 1
    }
}

/// Where the queue looks for the song before position `index`.
pub open spec fn prev_position(mode: PlaybackMode, shuffle: Seq<usize>, index: int) -> int {
    if mode == PlaybackMode::Shuffle {
        shuffle[index - 1] as int
    } else {
        index - 1
    }
}

/// The first position of `h` in a hash list, if any.
pub open spec fn hash_position(s: Seq<u64>, h: u64) -> Option<int>
    decreases s.len(),
{
    if s.len() == 0 {
        None
    } else if s.first() == h {
        Some(0int)
    } else {
        match hash_position(s.drop_first(), h) {
            Some(i) => Some(i + 1),
            None => None,
        }
    }
}

pub proof fn lemma_hash_position_at(s: Seq<u64>, h: u64, i: int)
    requires
        0 <= i < s.len(),
        s[i] == h,
        forall|k: int| 0 <= k < i ==> (#[trigger] s[k]) != h,
    ensures
        hash_position(s, h) == Some(i),
    decreases i,
{
    if i > 0 {
        lemma_hash_position_at(s.drop_first(), h, i - 1);
    }
}

pub proof fn lemma_hash_position_absent(s: Seq<u64>, h: u64)
    requires
        forall|k: int| 0 <= k < s.len() ==> (#[trigger] s[k]) != h,
    ensures
        hash_position(s, h) is None,
    decreases s.len(),
{
    if s.len() > 0 {
        lemma_hash_position_absent(s.drop_first(), h);
    }
}

/// The playback bookkeeping.
pub struct PlayerQueue {
    pub current_index: Option<usize>,
    pub current_title: Option<Song>,
    pub playlist: Vec<Song>,
    pub queue: VecDeque<Song>,
    pub library: Vec<Song>,
    pub shuffle_positions: Vec<usize>,
    pub playback_mode: PlaybackMode,
}

impl Default for PlayerQueue {
    /// An empty queue in normal playback order.
    fn default() -> (r: PlayerQueue)
        ensures
            r.current_index is None,
            r.current_title is None,
            r.playlist@.len() == 0,
            r.queue@.len() == 0,
            r.library@.len() == 0,
            r.shuffle_positions@.len() == 0,
            r.playback_mode == PlaybackMode::Normal,
    {
        PlayerQueue {
            current_index: None,
            current_title: None,
            playlist: Vec::new(),
            queue: VecDeque::new(),
            library: Vec::new(),
            shuffle_positions: Vec::new(),
            playback_mode: PlaybackMode::Normal,
        }
    }
}

impl PlayerQueue {
    pub fn set_library(&mut self, songs: Vec<Song>)
        ensures
            final(self).library == songs,
            final(self).playlist == old(self).playlist,
            final(self).queue == old(self).queue,
            final(self).current_index == old(self).current_index,
            final(self).current_title == old(self).current_title,
            final(self).shuffle_positions == old(self).shuffle_positions,
            final(self).playback_mode == old(self).playback_mode,
    {
        self.library = songs;
    }

    pub fn get_library(&self) -> (r: &Vec<Song>)
        ensures
            r == self.library,
    {
        &self.library
    }

    pub fn set_current_media(&mut self, song: Option<&Song>)
        ensures
            match song {
                Some(s) => final(self).current_title matches Some(t) && t@ == s@,
                None => final(self).current_title is None,
            },
            final(self).playlist == old(self).playlist,
            final(self).queue == old(self).queue,
            final(self).current_index == old(self).current_index,
            final(self).library == old(self).library,
            final(self).shuffle_positions == old(self).shuffle_positions,
            final(self).playback_mode == old(self).playback_mode,
    {
        self.current_title = match song {
            Some(s) => Some(s.duplicate()),
            None => None,
        };
    }

    /// Appends to the one-shot queue, which plays ahead of the playlist.
    pub fn add_to_queue(&mut self, song: &Song)
        ensures
            final(self).queue@.len() == old(self).queue@.len() + 1,
            final(self).queue@.last()@ == song@,
            forall|i: int| 0 <= i < old(self).queue@.len()
                ==> (#[trigger] final(self).queue@[i]) == old(self).queue@[i],
            final(self).playlist == old(self).playlist,
            final(self).current_index == old(self).current_index,
            final(self).current_title == old(self).current_title,
            final(self).library == old(self).library,
            final(self).shuffle_positions == old(self).shuffle_positions,
            final(self).playback_mode == old(self).playback_mode,
    {
        self.queue.push_back(song.duplicate());
    }

    /// A fresh random order over the playlist's positions: a permutation
    /// of them, in whatever order the generator dealt.
    pub fn generate_shuffle_positions(&mut self)
        ensures
            final(self).shuffle_positions@.len() == old(self).playlist@.len(),
            final(self).shuffle_positions@.to_multiset()
                == identity_positions(old(self).playlist@.len() as nat).to_multiset(),
            final(self).playlist == old(self).playlist,
            final(self).queue == old(self).queue,
            final(self).current_index == old(self).current_index,
            final(self).current_title == old(self).current_title,
            final(self).library == old(self).library,
            final(self).playback_mode == old(self).playback_mode,
    {
        let n = self.playlist.len();
        let mut positions: Vec<usize> = Vec::new();
        let mut i: usize = 0;
        while i < n
            invariant
                i <= n,
                positions@ =~= identity_positions(i as nat),
            decreases n - i,
        {
            positions.push(i);
            proof {
                assert(positions@ =~= identity_positions(i as nat + 1));
            }
            i = i + 1;
        }
        shuffle_in_place(&mut positions);
        self.shuffle_positions = positions;
    }

    /// Replaces the playlist; the shuffle order is dealt anew for the new
    /// length.
    pub fn set_playlist(&mut self, songs: &Vec<Song>)
        ensures
            songs_eq(final(self).playlist@, songs@),
            final(self).shuffle_positions@.len() == songs@.len(),
            final(self).shuffle_positions@.to_multiset()
                == identity_positions(songs@.len() as nat).to_multiset(),
            final(self).queue == old(self).queue,
            final(self).current_index == old(self).current_index,
            final(self).current_title == old(self).current_title,
            final(self).library == old(self).library,
            final(self).playback_mode == old(self).playback_mode,
    {
        let mut copy: Vec<Song> = Vec::new();
        let mut i: usize = 0;
        while i < songs.len()
            invariant
                i <= songs@.len(),
                copy@.len() == i,
                forall|k: int| 0 <= k < i ==> (#[trigger] copy@[k])@ == songs@[k]@,
            decreases songs@.len() - i,
        {
            copy.push(songs[i].duplicate());
            i = i + 1;
        }
        self.playlist = copy;
        self.generate_shuffle_positions();
    }

    pub fn get_playlist(&self) -> (r: &Vec<Song>)
        ensures
            r == self.playlist,
    {
        &self.playlist
    }

    pub fn get_current_title(&self) -> (r: Option<Song>)
        ensures
            match self.current_title {
                Some(ref t) => r matches Some(s) && s@ == t@,
                None => r is None,
            },
    {
        match &self.current_title {
            Some(t) => Some(t.duplicate()),
            None => None,
        }
    }

    /// The semantic hashes of the playlist, in order.
    pub fn hashed_playlist(&self) -> (r: Vec<u64>)
        ensures
            r@ == song_hashes(self.playlist@),
    {
        let mut r: Vec<u64> = Vec::new();
        let mut i: usize = 0;
        while i < self.playlist.len()
            invariant
                i <= self.playlist@.len(),
                r@.len() == i,
                forall|k: int| 0 <= k < i
                    ==> (#[trigger] r@[k]) == song_hash(self.playlist@[k]@),
            decreases self.playlist@.len() - i,
        {
            let h = self.playlist[i].semantic_hash();
            r.push(h);
            i = i + 1;
        }
        proof {
            assert(r@ =~= song_hashes(self.playlist@));
        }
        r
    }

    /// What plays next: the one-shot queue first; then the playlist entry
    /// after the current position (through the shuffle order when that
    /// mode is on); past the end, the playlist starts over from its head.
    pub fn get_next_song(&mut self) -> (r: Option<Song>)
        requires
            old(self).current_index matches Some(i) ==> i < usize::MAX,
        ensures
            final(self).playlist == old(self).playlist,
            final(self).library == old(self).library,
            final(self).shuffle_positions == old(self).shuffle_positions,
            final(self).playback_mode == old(self).playback_mode,
            final(self).current_title == old(self).current_title,
            old(self).queue@.len() > 0 ==> {
                &&& r matches Some(s) && s@ == old(self).queue@.first()@
                &&& final(self).queue@ =~= old(self).queue@.drop_first()
                &&& final(self).current_index == old(self).current_index
            },
            old(self).queue@.len() == 0 ==> {
                &&& final(self).queue@ == old(self).queue@
                &&& match old(self).current_index {
                    Some(index) => {
                        let pos = next_position(
                            old(self).playback_mode,
                            old(self).shuffle_positions@,
                            index as int,
                        );
                        if 0 <= pos < old(self).playlist@.len() {
                            (r matches Some(s) && s@ == old(self).playlist@[pos]@)
                                && final(self).current_index == Some((index + 1) as usize)
                        } else {
                            fallback_to_first(
                                old(self).playlist@,
                                r,
                                final(self).current_index,
                            )
                        }
                    },
                    None => fallback_to_first(
                        old(self).playlist@,
                        r,
                        final(self).current_index,
                    ),
                }
            },
    {
        match self.queue.pop_front() {
            Some(song) => Some(song),
            None => {
                match self.current_index {
                    Some(index) => {
                        let inarray: usize = if self.playback_mode == PlaybackMode::Shuffle {
                            if index + 1 < self.shuffle_positions.len() {
                                self.shuffle_positions[index + 1]
                            } else {
                                0
                            }
                        } else {
                            index + 1
                        };
                        if inarray < self.playlist.len() {
                            self.current_index = Some(index + 1);
                            Some(self.playlist[inarray].duplicate())
                        } else {
                            self.current_index = Some(0);
                            if self.playlist.len() > 0 {
                                Some(self.playlist[0].duplicate())
                            } else {
                                None
                            }
                        }
                    },
                    None => {
                        self.current_index = Some(0);
                        if self.playlist.len() > 0 {
                            Some(self.playlist[0].duplicate())
                        } else {
                            None
                        }
                    },
                }
            },
        }
    }

    /// What played before: the playlist entry ahead of the current
    /// position, through the shuffle order when that mode is on. A queue
    /// that never played anything starts at the playlist's head.
    pub fn get_previous_song(&mut self) -> (r: Option<Song>)
        requires
            match old(self).current_index {
                Some(i) => i >= 1 && (old(self).playback_mode == PlaybackMode::Shuffle
                    ==> i - 1 < old(self).shuffle_positions@.len()),
                None => true,
            },
        ensures
            final(self).playlist == old(self).playlist,
            final(self).library == old(self).library,
            final(self).shuffle_positions == old(self).shuffle_positions,
            final(self).playback_mode == old(self).playback_mode,
            final(self).current_title == old(self).current_title,
            final(self).queue == old(self).queue,
            match old(self).current_index {
                Some(index) => {
                    let pos = prev_position(
                        old(self).playback_mode,
                        old(self).shuffle_positions@,
                        index as int,
                    );
                    if 0 <= pos < old(self).playlist@.len() {
                        (r matches Some(s) && s@ == old(self).playlist@[pos]@)
                            && final(self).current_index == Some((index - 1) as usize)
                    } else {
                        fallback_to_first(old(self).playlist@, r, final(self).current_index)
                    }
                },
                None => fallback_to_first(old(self).playlist@, r, final(self).current_index),
            },
    {
        match self.current_index {
            Some(index) => {
                let inarray: usize = if self.playback_mode == PlaybackMode::Shuffle {
                    self.shuffle_positions[index - 1]
                } else {
                    index - 1
                };
                if inarray < self.playlist.len() {
                    self.current_index = Some(index - 1);
                    Some(self.playlist[inarray].duplicate())
                } else {
                    self.current_index = Some(0);
                    if self.playlist.len() > 0 {
                        Some(self.playlist[0].duplicate())
                    } else {
                        None
                    }
                }
            },
            None => {
                self.current_index = Some(0);
                if self.playlist.len() > 0 {
                    Some(self.playlist[0].duplicate())
                } else {
                    None
                }
            },
        }
    }

    /// The first playlist position holding this very song, if any.
    pub fn position_of(&self, song: &Song) -> (r: Option<usize>)
        ensures
            match r {
                Some(i) => i < self.playlist@.len() && self.playlist@[i as int]@ == song@
                    && (forall|k: int| 0 <= k < i
                        ==> (#[trigger] self.playlist@[k])@ != song@),
                None => forall|k: int| 0 <= k < self.playlist@.len()
                    ==> (#[trigger] self.playlist@[k])@ != song@,
            },
    {
        let mut i: usize = 0;
        while i < self.playlist.len()
            invariant
                i <= self.playlist@.len(),
                forall|k: int| 0 <= k < i ==> (#[trigger] self.playlist@[k])@ != song@,
            decreases self.playlist@.len() - i,
        {
            if crate::song::song_eq(&self.playlist[i], song) {
                return Some(i);
            }
            i = i + 1;
        }
        None
    }

    /// Brings the queue in line with a clicked song's surroundings: when
    /// the playlist already matches the stored hashes, nothing moves;
    /// otherwise the resolved songs become the playlist, the shuffle order
    /// is dealt anew, and the current position jumps to the clicked song's
    /// first hash in the stored list, staying put when absent.
    #[verifier::rlimit(100)]
    #[verifier::spinoff_prover]
    pub fn sync_selection(&mut self, resolved: &Vec<Song>, stored_hashes: &Vec<u64>, clicked: &Song)
        ensures
            final(self).library == old(self).library,
            final(self).current_title == old(self).current_title,
            final(self).playback_mode == old(self).playback_mode,
            final(self).queue == old(self).queue,
            if song_hashes(old(self).playlist@) == stored_hashes@ {
                &&& final(self).playlist == old(self).playlist
                &&& final(self).shuffle_positions == old(self).shuffle_positions
                &&& final(self).current_index == old(self).current_index
            } else {
                &&& songs_eq(final(self).playlist@, resolved@)
                &&& final(self).shuffle_positions@.len() == resolved@.len()
                &&& final(self).current_index == match hash_position(
                    stored_hashes@,
                    song_hash(clicked@),
                ) {
                    Some(i) => Some(i as usize),
                    None => old(self).current_index,
                }
            },
    {
        let current = self.hashed_playlist();
        if eq_u64_vecs(&current, stored_hashes) {
            return;
        }
        self.set_playlist(resolved);
        let h = clicked.semantic_hash();
        let mut i: usize = 0;
        while i < stored_hashes.len()
            invariant
                i <= stored_hashes@.len(),
                forall|k: int| 0 <= k < i ==> (#[trigger] stored_hashes@[k]) != h,
                songs_eq(self.playlist@, resolved@),
                self.shuffle_positions@.len() == resolved@.len(),
                self.queue == old(self).queue,
                self.library == old(self).library,
                self.current_title == old(self).current_title,
                self.playback_mode == old(self).playback_mode,
                self.current_index == old(self).current_index,
                h == song_hash(clicked@),
                song_hashes(old(self).playlist@) != stored_hashes@,
            decreases stored_hashes@.len() - i,
        {
            if stored_hashes[i] == h {
                self.current_index = Some(i);
                proof {
                    lemma_hash_position_at(stored_hashes@, h, i as int);
                }
                return;
            }
            i = i + 1;
        }
        proof {
            lemma_hash_position_absent(stored_hashes@, h);
        }
    }
}

/// Element-wise semantic equality of two song lists.
pub open spec fn songs_eq(a: Seq<Song>, b: Seq<Song>) -> bool {
    a.len() == b.len() && forall|i: int| 0 <= i < a.len() ==> (#[trigger] a[i])@ == b[i]@
}

/// The fallback step of the queue: the position resets to the head, and
/// the head plays if there is one.
pub open spec fn fallback_to_first(
    playlist: Seq<Song>,
    r: Option<Song>,
    index_after: Option<usize>,
) -> bool {
    &&& index_after == Some(0usize)
    &&& if playlist.len() > 0 {
        r matches Some(s) && s@ == playlist[0]@
    } else {
        r is None
    }
}

/// Whether two hash lists are equal.
pub fn eq_u64_vecs(a: &Vec<u64>, b: &Vec<u64>) -> (r: bool)
    ensures
        r == (a@ == b@),
{
    if a.len() != b.len() {
        proof {
            assert(a@.len() != b@.len());
        }
        return false;
    }
    let mut i: usize = 0;
    while i < a.len()
        invariant
            i <= a@.len(),
            a@.len() == b@.len(),
            forall|k: int| 0 <= k < i ==> (#[trigger] a@[k]) == b@[k],
        decreases a@.len() - i,
    {
        if a[i] != b[i] {
            return false;
        }
        i = i + 1;
    }
    proof {
        assert(a@ =~= b@);
    }
    true
}

} // verus!
