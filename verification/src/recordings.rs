//! The plain recording store: sessions, finalizing, and which files of the
//! recording directory belong to which recording.
use vstd::prelude::*;
use vstd::utf8::encode_utf8;

use crate::clock::Moment;
use crate::ids::{is_id_char, lemma_id_bytes_decode};
use crate::names::{
    content_type_of, ends_with, ext_for_mime, extension_text, file_extension, file_stem,
    is_plain_file_name, is_safe_id, law_stored_type_is_served, lemma_stored_name, mime_extension,
    safe_id, stem_text, stored_media_type, str_ends_with,
};
use crate::sessions::{
    after_chunk, appended, chunk_verdict, has_room, law_chunks_accumulate, lemma_appended,
    lemma_total_prefix, total, ChunkError, ChunkSession, ChunkSessions, MAX_CHUNK_BYTES,
};
use crate::text::{push_text, str_eq, to_chars};

verus! {

/// What a plain recording session remembers besides its counters.
pub struct RecordingMeta {
    pub mime: String,
    pub started: Moment,
}

/// The state of a session as the API reports it when it starts.
pub struct SessionSnapshot {
    pub id: String,
    pub started: Moment,
    pub seq: u64,
    pub mime: String,
    pub bytes: u64,
}

/// A closed session and the name its audio file takes.
pub struct FinishedRecording {
    pub id: String,
    pub file: String,
    pub mime: String,
    pub started: Moment,
    pub bytes: u64,
    pub chunks: u64,
}

/// Why finalizing is refused.
#[derive(Clone, Copy, Debug, PartialEq, Eq)]
pub enum FinalizeError {
    InvalidId,
    NotActive,
}

pub open spec fn finalize_error_text(e: FinalizeError) -> Seq<char> {
    match e {
        FinalizeError::InvalidId => "invalid recording id"@,
        FinalizeError::NotActive => "recording session not active"@,
    }
}

impl FinalizeError {
    /// The text the HTTP API answers with.
    pub fn message(&self) -> (r: String)
        ensures
            r@ == finalize_error_text(*self),
    {
        match self {
            FinalizeError::InvalidId => "invalid recording id".to_owned(),
            FinalizeError::NotActive => "recording session not active".to_owned(),
        }
    }
}

/// The open sessions of the plain recording store.
pub struct RecordingBook {
    sessions: ChunkSessions<RecordingMeta>,
}

impl View for RecordingBook {
    type V = Map<Seq<char>, ChunkSession<RecordingMeta>>;

    closed spec fn view(&self) -> Map<Seq<char>, ChunkSession<RecordingMeta>> {
        self.sessions@
    }
}

impl RecordingBook {
    pub fn new() -> (r: Self)
        ensures
            r@ == Map::<Seq<char>, ChunkSession<RecordingMeta>>::empty(),
    {
        RecordingBook { sessions: ChunkSessions::new() }
    }

    /// Opens session `id` for audio of type `mime`, started at `started`.
    /// The id is a fresh one from `new_id`, and so well formed.
    pub fn start(&mut self, id: String, mime: String, started: Moment) -> (r: SessionSnapshot)
        requires
            is_safe_id(encode_utf8(id@)),
        ensures
            final(self)@ == old(self)@.insert(
                id@,
                ChunkSession { id, seq: 0, bytes: 0, meta: RecordingMeta { mime, started } },
            ),
            r.id@ == id@,
            r.mime@ == mime@,
            r.started == started,
            r.seq == 0,
            r.bytes == 0,
    {
        let snapshot = SessionSnapshot {
            id: id.clone(),
            started,
            seq: 0,
            mime: mime.clone(),
            bytes: 0,
        };
        self.sessions.begin(id, RecordingMeta { mime, started });
        snapshot
    }

    /// The verdict on a chunk for session `id`; nothing changes.
    pub fn check_append(&self, id: &str, seq: u64, len: usize) -> (r: Result<(), ChunkError>)
        ensures
            r == chunk_verdict(self@, id@, seq, len as nat),
    {
        self.sessions.check_chunk(id, seq, len)
    }

    /// Whether session `id` is open and can count one more chunk of `len`
    /// bytes.
    pub fn room_for(&self, id: &str, len: usize) -> (r: bool)
        ensures
            r == (self@.contains_key(id@) && has_room(self@[id@], len as nat)),
    {
        self.sessions.room_for(id, len)
    }

    /// Counts a chunk of `len` bytes that was written for session `id`.
    pub fn append(&mut self, id: &str, len: usize) -> (n: u64)
        requires
            old(self)@.contains_key(id@),
            has_room(old(self)@[id@], len as nat),
        ensures
            n == len,
            final(self)@ == old(self)@.insert(id@, after_chunk(old(self)@[id@], len as nat)),
    {
        self.sessions.append(id, len)
    }

    /// Closes session `id`: its audio file is named by the id and the
    /// extension of its MIME type.
    pub fn finalize(&mut self, id: &str) -> (r: Result<FinishedRecording, FinalizeError>)
        ensures
            !is_safe_id(encode_utf8(id@)) ==> r == Err::<FinishedRecording, FinalizeError>(
                FinalizeError::InvalidId,
            ) && final(self)@ == old(self)@,
            is_safe_id(encode_utf8(id@)) && !old(self)@.contains_key(id@) ==> r == Err::<
                FinishedRecording,
                FinalizeError,
            >(FinalizeError::NotActive) && final(self)@ == old(self)@,
            is_safe_id(encode_utf8(id@)) && old(self)@.contains_key(id@) ==> {
                let s = old(self)@[id@];
                &&& r matches Ok(f)
                &&& f.id@ == id@
                &&& f.file@ == id@ + mime_extension(s.meta.mime@)
                &&& f.mime == s.meta.mime
                &&& f.started == s.meta.started
                &&& f.bytes == s.bytes
                &&& f.chunks == s.seq
                &&& final(self)@ == old(self)@.remove(id@)
            },
    {
        if !safe_id(id) {
            return Err(FinalizeError::InvalidId);
        }
        match self.sessions.take(id) {
            None => {
                assert(self@ =~= old(self)@);
                Err(FinalizeError::NotActive)
            },
            Some(s) => {
                let ext = ext_for_mime(s.meta.mime.as_str());
                let mut file = id.to_owned();
                push_text(&mut file, ext);
                Ok(
                    FinishedRecording {
                        id: id.to_owned(),
                        file,
                        mime: s.meta.mime,
                        started: s.meta.started,
                        bytes: s.bytes,
                        chunks: s.seq,
                    },
                )
            },
        }
    }

    /// Forgets session `id`, if its id is well formed; returns whether the
    /// id was well formed (and so whether its files may be removed).
    pub fn delete(&mut self, id: &str) -> (r: bool)
        ensures
            r == is_safe_id(encode_utf8(id@)),
            r ==> final(self)@ == old(self)@.remove(id@),
            !r ==> final(self)@ == old(self)@,
    {
        if !safe_id(id) {
            return false;
        }
        let _ = self.sessions.take(id);
        true
    }
}

/// The largest client log entry accepted: 64 KiB.
pub const CLIENT_LOG_MAX_BYTES: usize = 65536;

/// Whether a client log entry of `len` bytes is accepted.
pub fn client_log_fits(len: usize) -> (r: bool)
    ensures
        r == (len <= CLIENT_LOG_MAX_BYTES),
{
    len <= CLIENT_LOG_MAX_BYTES
}

// ---------------------------------------------------------------------------
// Files of the recording directory
// ---------------------------------------------------------------------------

pub open spec fn stem_or_empty(name: Seq<char>) -> Seq<char> {
    match stem_text(name) {
        Some(s) => s,
        None => Seq::empty(),
    }
}

/// The recording a directory entry lists, if any: upload parts, metadata
/// sidecars and the client log are skipped, and the file's stem must be a
/// well-formed id.
pub open spec fn listed_id(name: Seq<char>) -> Option<Seq<char>> {
    if ends_with(name, ".part"@) || ends_with(name, ".json"@) || name == "client.log"@ {
        None
    } else if is_safe_id(encode_utf8(stem_or_empty(name))) {
        Some(stem_or_empty(name))
    } else {
        None
    }
}

pub fn listed_recording_id(name: &str) -> (r: Option<String>)
    ensures
        r.deep_view() == listed_id(name@),
{
    let c = to_chars(name);
    if str_ends_with(&c, ".part") || str_ends_with(&c, ".json") || str_eq(name, "client.log") {
        return None;
    }
    let id = match file_stem(name) {
        Some(s) => s,
        None => String::new(),
    };
    if safe_id(id.as_str()) {
        Some(id)
    } else {
        None
    }
}

/// Whether the file `name` holds the audio of recording `id`: its stem is
/// the id and its extension is neither `json` nor `part`.
pub open spec fn is_audio_of(name: Seq<char>, id: Seq<char>) -> bool {
    &&& stem_text(name) == Some(id)
    &&& extension_text(name) != Some("json"@)
    &&& extension_text(name) != Some("part"@)
}

pub fn is_recording_audio(name: &str, id: &str) -> (r: bool)
    ensures
        r == is_audio_of(name@, id@),
{
    let stem_matches = match file_stem(name) {
        Some(s) => str_eq(s.as_str(), id),
        None => false,
    };
    if !stem_matches {
        return false;
    }
    match file_extension(name) {
        Some(e) => !str_eq(e.as_str(), "json") && !str_eq(e.as_str(), "part"),
        None => true,
    }
}

/// Whether the file `name` belongs to recording `id` (its stem is the id).
pub fn is_recording_file(name: &str, id: &str) -> (r: bool)
    ensures
        r == (stem_text(name@) == Some(id@)),
{
    match file_stem(name) {
        Some(s) => str_eq(s.as_str(), id),
        None => false,
    }
}

/// A finalized recording is found again under its id: the file that
/// finalizing names (the id followed by the extension of its MIME type) is
/// a bare file name, the directory listing reports it as recording `id`,
/// it holds the audio of `id`, and it is served with the media type it was
/// recorded in.
pub proof fn law_finalized_file_is_found(id: Seq<char>, mime: Seq<char>)
    requires
        is_safe_id(encode_utf8(id)),
    ensures
        ({
            let name = id + mime_extension(mime);
            &&& is_plain_file_name(name)
            &&& stem_text(name) == Some(id)
            &&& listed_id(name) == Some(id)
            &&& is_audio_of(name, id)
            &&& content_type_of(name) == stored_media_type(mime)
        }),
{
    lemma_id_bytes_decode(id);
    assert(!id.contains('/')) by {
        if id.contains('/') {
            let j = choose|j: int| 0 <= j < id.len() && id[j] == '/';
            assert(is_id_char(id[j]));
        }
    }
    lemma_stored_name(id, mime);
    law_stored_type_is_served(id, mime);
    reveal_strlit(".webm");
    reveal_strlit(".ogg");
    reveal_strlit(".m4a");
    reveal_strlit(".bin");
    reveal_strlit(".part");
    reveal_strlit(".json");
    reveal_strlit("client.log");
    reveal_strlit("json");
    reveal_strlit("part");
    let ext = mime_extension(mime);
    let name = id + ext;
    let n = name.len();
    assert(name[n - 4] == '.' || name[n - 4] == 'w') by {
        assert(name[n - 4] == ext[ext.len() - 4]);
    }
    if ends_with(name, ".part"@) {
        assert(name.skip(n - 5)[1] == name[n - 4]);
    }
    if ends_with(name, ".json"@) {
        assert(name.skip(n - 5)[1] == name[n - 4]);
    }
    assert(name != "client.log"@) by {
        assert(is_id_char(id[6]));
        assert(name[6] == id[6]);
    }
    assert(ext.skip(1) != "json"@ && ext.skip(1) != "part"@) by {
        if ext.skip(1).len() == 4 {
            assert(ext.skip(1)[0] == 'w');
        }
    }
}

/// A session that is started and then sent its chunks in order accepts
/// each one, chunk `k` as number `k`, and when it is finalized it counts the
/// chunks and their total size and keeps its MIME type and start time.
pub proof fn law_appends_then_finalize(
    book: Map<Seq<char>, ChunkSession<RecordingMeta>>,
    id: String,
    mime: String,
    started: Moment,
    lens: Seq<nat>,
)
    requires
        is_safe_id(encode_utf8(id@)),
        lens.len() <= u64::MAX,
        total(lens) <= u64::MAX,
        forall|k: int| 0 <= k < lens.len() ==> #[trigger] lens[k] <= MAX_CHUNK_BYTES,
    ensures
        ({
            let opened = book.insert(
                id@,
                ChunkSession { id, seq: 0, bytes: 0, meta: RecordingMeta { mime, started } },
            );
            let done = appended(opened, id@, lens);
            &&& forall|k: int|
                0 <= k < lens.len() ==> {
                    let before = #[trigger] appended(opened, id@, lens.take(k));
                    &&& chunk_verdict(before, id@, k as u64, lens[k]) == Ok::<(), ChunkError>(())
                    &&& has_room(before[id@], lens[k])
                    &&& appended(opened, id@, lens.take(k + 1)) == before.insert(
                        id@,
                        after_chunk(before[id@], lens[k]),
                    )
                }
            &&& done.contains_key(id@)
            &&& done[id@].seq == lens.len()
            &&& done[id@].bytes == total(lens)
            &&& done[id@].meta == RecordingMeta { mime, started }
        }),
{
    let s0 = ChunkSession { id, seq: 0, bytes: 0, meta: RecordingMeta { mime, started } };
    let opened = book.insert(id@, s0);
    lemma_appended(opened, id@, lens);
    law_chunks_accumulate(s0, lens);
    assert forall|k: int| 0 <= k < lens.len() implies {
        let before = #[trigger] appended(opened, id@, lens.take(k));
        &&& chunk_verdict(before, id@, k as u64, lens[k]) == Ok::<(), ChunkError>(())
        &&& has_room(before[id@], lens[k])
        &&& appended(opened, id@, lens.take(k + 1)) == before.insert(
            id@,
            after_chunk(before[id@], lens[k]),
        )
    } by {
        let pre = lens.take(k);
        lemma_total_prefix(lens, k);
        lemma_appended(opened, id@, pre);
        law_chunks_accumulate(s0, pre);
        assert(lens.take(k + 1).drop_last() =~= pre);
        assert(lens.take(k + 1).last() == lens[k]);
    }
}

} // verus!
