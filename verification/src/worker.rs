//! One worker's walk through a single download, as a state machine: connect,
//! read the total size, make sure the destination directory exists, open the
//! file, record the live state, then stream chunks until the end. The phases
//! order the side effects; in particular, no chunk is recorded before the
//! directory step has run.

use vstd::prelude::*;
use crate::database::DatabaseDataContainer;
use crate::download::{
    Download, DownloadManager, DownloadStatusView, DownloadStateView, chunk_applied,
    finished_song, fresh_state, state_find,
};
use crate::song::song_hash;
use crate::database::{lookup_track, playlist_find, push_absent};
use crate::playlist::PlaylistView;
use crate::text::string_of_chars;

verus! {

/// Where a worker stands with its current task.
#[derive(Clone, Copy, Debug, PartialEq, Eq, Structural)]
pub enum WorkerPhase {
    Fetching,
    EnsuringDir,
    CreatingFile,
    Streaming,
    Done,
}

/// The path up to and not including its last slash; a path without one
/// has no parent to make.
pub open spec fn parent_dir(p: Seq<char>) -> Seq<char>
    decreases p.len(),
{
    if p.len() == 0 {
        p
    } else if p.last() == '/' {
        p.drop_last()
    } else {
        parent_dir(p.drop_last())
    }
}

/// Computes the destination directory of a path.
pub fn parent_dir_of(p: &String) -> (r: String)
    ensures
        r@ == parent_dir(p@),
{
    let chars = crate::text::chars_of_str(p.as_str());
    let mut end: usize = chars.len();
    proof {
        assert(p@.take(p@.len() as int) =~= p@);
    }
    while end > 0 && chars[end - 1] != '/'
        invariant
            end <= chars@.len(),
            chars@ == p@,
            parent_dir(p@.take(end as int)) == parent_dir(p@),
        decreases end,
    {
        proof {
            assert(p@.take(end as int).last() == p@[end as int - 1]);
            assert(p@.take(end as int).drop_last() =~= p@.take(end as int - 1));
        }
        end = end - 1;
    }
    let cut: usize = if end > 0 {
        proof {
            assert(p@.take(end as int).last() == '/');
            assert(p@.take(end as int).drop_last() =~= p@.take(end as int - 1));
        }
        end - 1
    } else {
        proof {
            assert(p@.take(0) =~= Seq::<char>::empty());
        }
        0
    };
    proof {
        assert(parent_dir(p@) == p@.take(cut as int));
    }
    let mut out: Vec<char> = Vec::new();
    let mut i: usize = 0;
    while i < cut
        invariant
            i <= cut <= chars@.len(),
            chars@ == p@,
            out@ == p@.subrange(0, i as int),
        decreases cut - i,
    {
        out.push(chars[i]);
        proof {
            assert(out@ =~= p@.subrange(0, i as int + 1));
        }
        i = i + 1;
    }
    proof {
        assert(out@ =~= p@.take(cut as int));
    }
    string_of_chars(&out)
}

/// One worker session: the task in hand, the phase reached, and whether
/// the directory step has already run.
pub struct WorkerSession {
    pub download: Download,
    pub phase: WorkerPhase,
    pub total_size: u64,
    pub dir_ensured: bool,
}

impl WorkerSession {
    /// Streaming only begins after the directory step: the phase order is
    /// the session's invariant.
    pub open spec fn wf(&self) -> bool {
        (self.phase == WorkerPhase::CreatingFile || self.phase == WorkerPhase::Streaming)
            ==> self.dir_ensured
    }

    /// Takes a dequeued task; the first step is the connection.
    pub fn begin(download: Download) -> (s: WorkerSession)
        ensures
            s.wf(),
            s.phase == WorkerPhase::Fetching,
            s.download@ == download@,
    {
        WorkerSession {
            download,
            phase: WorkerPhase::Fetching,
            total_size: 0,
            dir_ensured: false,
        }
    }

    /// A connection that never opened still leaves a terminal record: the
    /// task must not be silently lost.
    pub fn on_connect_failed(
        &mut self,
        mgr: &mut DownloadManager,
        message: String,
        now_ms: u64,
    )
        requires
            old(self).phase == WorkerPhase::Fetching,
        ensures
            final(self).wf(),
            final(self).phase == WorkerPhase::Done,
            final(mgr)@.queue == old(mgr)@.queue,
            final(mgr)@.max_concurrency == old(mgr)@.max_concurrency,
            state_find(final(mgr)@.states, old(self).download@.track.id) matches Some(i)
                && final(mgr)@.states[i].status == DownloadStatusView::Failed(message@)
                && final(mgr)@.states[i].download == old(self).download@,
    {
        let ghost id = self.download@.track.id;
        let ghost states0 = mgr@.states;
        proof {
            crate::download::lemma_state_find_props(states0, id);
        }
        mgr.start_download(self.download.duplicate(), 0, now_ms);
        let ghost states1 = mgr@.states;
        let ghost j = match state_find(states0, id) {
            Some(i) => i,
            None => states0.len() as int,
        };
        proof {
            assert(states1[j].download.track.id == id);
            assert(forall|k: int| 0 <= k < j
                ==> (#[trigger] states1[k]).download.track.id != id);
            crate::download::lemma_state_find_at(states1, id, j);
        }
        mgr.fail_download(self.download.track.id, message);
        proof {
            let states2 = mgr@.states;
            assert(forall|k: int| 0 <= k < j
                ==> (#[trigger] states2[k]).download.track.id != id);
            assert(states2[j].download.track.id == id);
            crate::download::lemma_state_find_at(states2, id, j);
        }
        self.phase = WorkerPhase::Done;
    }

    /// The connection is up; the total size comes from the headers, zero
    /// when they name none. Next the destination directory is made.
    pub fn on_connected(&mut self, total_size: u64)
        requires
            old(self).phase == WorkerPhase::Fetching,
        ensures
            final(self).wf(),
            final(self).phase == WorkerPhase::EnsuringDir,
            final(self).download == old(self).download,
            final(self).total_size == total_size,
    {
        self.total_size = total_size;
        self.phase = WorkerPhase::EnsuringDir;
    }

    /// The destination directory exists now; the live state opens as
    /// `Downloading` and the file is created next.
    pub fn on_dir_ensured(&mut self, mgr: &mut DownloadManager, now_ms: u64)
        requires
            old(self).phase == WorkerPhase::EnsuringDir,
        ensures
            final(self).wf(),
            final(self).phase == WorkerPhase::CreatingFile,
            final(self).dir_ensured,
            final(self).download == old(self).download,
            final(self).total_size == old(self).total_size,
            final(mgr)@.queue == old(mgr)@.queue,
            final(mgr)@.max_concurrency == old(mgr)@.max_concurrency,
            match state_find(old(mgr)@.states, old(self).download@.track.id) {
                Some(i) => final(mgr)@.states =~= old(mgr)@.states.update(
                    i,
                    fresh_state(old(self).download@, old(self).total_size, now_ms),
                ),
                None => final(mgr)@.states =~= old(mgr)@.states.push(
                    fresh_state(old(self).download@, old(self).total_size, now_ms),
                ),
            },
    {
        mgr.start_download(self.download.duplicate(), self.total_size, now_ms);
        self.dir_ensured = true;
        self.phase = WorkerPhase::CreatingFile;
    }

    /// The destination file is open; the body streams next.
    pub fn on_file_created(&mut self)
        requires
            old(self).phase == WorkerPhase::CreatingFile,
            old(self).wf(),
        ensures
            final(self).wf(),
            final(self).phase == WorkerPhase::Streaming,
            final(self).dir_ensured,
            final(self).download == old(self).download,
            final(self).total_size == old(self).total_size,
    {
        self.phase = WorkerPhase::Streaming;
    }

    /// The file could not be created: the state turns terminal `Failed`
    /// and the session ends; the worker loop goes on to the next task.
    pub fn on_file_failed(&mut self, mgr: &mut DownloadManager, message: String)
        requires
            old(self).phase == WorkerPhase::CreatingFile,
        ensures
            final(self).wf(),
            final(self).phase == WorkerPhase::Done,
            final(mgr)@.queue == old(mgr)@.queue,
            final(mgr)@.max_concurrency == old(mgr)@.max_concurrency,
            match state_find(old(mgr)@.states, old(self).download@.track.id) {
                Some(i) => final(mgr)@.states =~= old(mgr)@.states.update(
                    i,
                    (DownloadStateView {
                        status: DownloadStatusView::Failed(message@),
                        ..old(mgr)@.states[i]
                    }),
                ),
                None => final(mgr)@.states == old(mgr)@.states,
            },
    {
        mgr.fail_download(self.download.track.id, message);
        self.phase = WorkerPhase::Done;
    }

    /// One chunk has been appended to the file, in receipt order; the live
    /// state absorbs it. Only a streaming session — whose directory step
    /// has run — records bytes.
    pub fn on_chunk(&mut self, mgr: &mut DownloadManager, chunk_len: u64, now_ms: u64)
        requires
            old(self).phase == WorkerPhase::Streaming,
            old(self).wf(),
        ensures
            *final(self) == *old(self),
            final(self).wf(),
            final(mgr)@.queue == old(mgr)@.queue,
            final(mgr)@.max_concurrency == old(mgr)@.max_concurrency,
            match state_find(old(mgr)@.states, old(self).download@.track.id) {
                Some(i) => final(mgr)@.states =~= old(mgr)@.states.update(
                    i,
                    chunk_applied(old(mgr)@.states[i], chunk_len, now_ms),
                ),
                None => final(mgr)@.states == old(mgr)@.states,
            },
    {
        mgr.record_chunk(self.download.track.id, chunk_len, now_ms);
    }

    /// The stream is exhausted: the state turns `Finished` and the
    /// on-finished effect runs against the library, once, before the
    /// worker loops again.
    pub fn on_stream_end(&mut self, mgr: &mut DownloadManager, data: &mut DatabaseDataContainer)
        requires
            old(self).phase == WorkerPhase::Streaming,
            old(self).wf(),
            old(data).wf(),
        ensures
            final(self).wf(),
            final(self).phase == WorkerPhase::Done,
            final(data).wf(),
            final(mgr)@.queue == old(mgr)@.queue,
            final(mgr)@.max_concurrency == old(mgr)@.max_concurrency,
            match state_find(old(mgr)@.states, old(self).download@.track.id) {
                Some(i) => {
                    &&& final(mgr)@.states =~= old(mgr)@.states.update(i, (DownloadStateView {
                        status: DownloadStatusView::Finished,
                        ..old(mgr)@.states[i]
                    }))
                    &&& lookup_track(
                        final(data)@.tracks,
                        song_hash(finished_song(old(mgr)@.states[i].download)),
                    ) == Some(finished_song(old(mgr)@.states[i].download))
                    &&& final(data)@.albums == old(data)@.albums
                    &&& match old(mgr)@.states[i].download.add_to_playlist {
                        None => final(data)@.playlists == old(data)@.playlists,
                        Some(pd) => match playlist_find(old(data)@.playlists, pd.name) {
                            None => final(data)@.playlists == old(data)@.playlists,
                            Some(p) => final(data)@.playlists =~= old(data)@.playlists.update(
                                p,
                                (PlaylistView {
                                    songs: push_absent(
                                        old(data)@.playlists[p].songs,
                                        seq![song_hash(finished_song(
                                            old(mgr)@.states[i].download,
                                        ))],
                                    ),
                                    ..old(data)@.playlists[p]
                                }),
                            ),
                        },
                    }
                },
                None => {
                    &&& final(mgr)@.states == old(mgr)@.states
                    &&& final(data)@ == old(data)@
                },
            },
    {
        let finished = mgr.finish_download(self.download.track.id);
        match finished {
            Some(task) => {
                task.on_finished(data);
            },
            None => {},
        }
        self.phase = WorkerPhase::Done;
    }

    /// The stream broke midway: the error is caught and recorded as a
    /// terminal `Failed`, so one task's error never kills the worker loop.
    pub fn on_stream_failed(&mut self, mgr: &mut DownloadManager, message: String)
        requires
            old(self).phase == WorkerPhase::Streaming,
            old(self).wf(),
        ensures
            final(self).wf(),
            final(self).phase == WorkerPhase::Done,
            final(mgr)@.queue == old(mgr)@.queue,
            final(mgr)@.max_concurrency == old(mgr)@.max_concurrency,
            match state_find(old(mgr)@.states, old(self).download@.track.id) {
                Some(i) => final(mgr)@.states =~= old(mgr)@.states.update(
                    i,
                    (DownloadStateView {
                        status: DownloadStatusView::Failed(message@),
                        ..old(mgr)@.states[i]
                    }),
                ),
                None => final(mgr)@.states == old(mgr)@.states,
            },
    {
        mgr.fail_download(self.download.track.id, message);
        self.phase = WorkerPhase::Done;
    }
}

/// The directories of a destination always exist before its first byte is
/// written: a session records chunks only while streaming, and a
/// well-formed session streams only after its directory step has run.
pub proof fn lemma_no_bytes_before_directories(s: WorkerSession)
    requires
        s.wf(),
        s.phase == WorkerPhase::Streaming,
    ensures
        s.dir_ensured,
{
}

} // verus!
