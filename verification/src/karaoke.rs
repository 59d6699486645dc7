//! The karaoke side of the service: recording sessions against a song, the
//! names their files take, and where a song's backing tracks live.
use vstd::prelude::*;
use vstd::string::StringSliceAdditionalSpecFns;
use vstd::utf8::{decode_utf8, encode_utf8, encode_utf8_decode_utf8, is_char_boundary};

use crate::clock::{shanghai_text, whole_seconds_between, Moment};
use crate::ids::lemma_safe_id_cuttable;
use crate::names::{
    ext_for_mime, extension_text, file_extension, is_safe_component, is_safe_id, mime_extension,
    safe_component, safe_song_filename, song_file_stem,
};
use crate::recordings::FinalizeError;
use crate::sessions::{after_chunk, chunk_verdict, has_room, ChunkError, ChunkSession, ChunkSessions};
use crate::text::{
    ascii_alphanumeric_char, blank, chars_equal, is_ascii_alphanumeric_char, is_blank,
    push_text, str_eq, string_of, to_chars,
};

verus! {

/// The longest a recording may claim to be: six hours.
pub const MAX_CLAIMED_SECONDS: i64 = 21600;

/// What a karaoke session remembers besides its counters.
pub struct KaraokeMeta {
    pub song_id: String,
    pub song_title: String,
    pub mode: String,
    pub mime: String,
    pub started: Moment,
}

/// A finished karaoke recording, as its metadata sidecar stores it.
pub struct KaraokeRecording {
    pub id: String,
    pub file: String,
    pub song_id: String,
    pub song_title: String,
    pub mode: String,
    pub duration_seconds: i64,
    pub created_at_shanghai: String,
    pub started_at_shanghai: String,
    pub bytes: u64,
    pub url: String,
}

/// A closed karaoke session: the recording under its preferred file name,
/// and the name to use instead when that one is already taken.
pub struct KaraokeFinalize {
    pub record: KaraokeRecording,
    pub fallback_file: String,
}

/// Whether a start request names a song: neither its id nor its title is
/// blank.
pub fn valid_start_request(song_id: &str, song_title: &str) -> (r: bool)
    ensures
        r == (!is_blank(song_id@) && !is_blank(song_title@)),
{
    !blank(song_id) && !blank(song_title)
}

/// The length of a recording: what the client measured, when that is more
/// than zero and at most six hours; otherwise the whole seconds the session
/// lasted, and never less than zero.
pub open spec fn chosen_duration(client_seconds: i64, elapsed_seconds: i64) -> i64 {
    if client_seconds <= 0 || client_seconds > MAX_CLAIMED_SECONDS {
        if elapsed_seconds > 0 {
            elapsed_seconds
        } else {
            0
        }
    } else {
        client_seconds
    }
}

pub fn choose_duration(client_seconds: i64, elapsed_seconds: i64) -> (r: i64)
    ensures
        r == chosen_duration(client_seconds, elapsed_seconds),
{
    if client_seconds <= 0 || client_seconds > MAX_CLAIMED_SECONDS {
        if elapsed_seconds > 0 {
            elapsed_seconds
        } else {
            0
        }
    } else {
        client_seconds
    }
}

/// A recording's length is never negative and never more than six hours
/// unless the session itself lasted longer.
pub proof fn law_duration_bounds(client_seconds: i64, elapsed_seconds: i64)
    ensures
        chosen_duration(client_seconds, elapsed_seconds) >= 0,
        chosen_duration(client_seconds, elapsed_seconds) <= MAX_CLAIMED_SECONDS
            || chosen_duration(client_seconds, elapsed_seconds) == elapsed_seconds,
{
}

/// Whether the first 8 bytes of an id end on a character boundary (or the id
/// is no longer than that), so the id can be cut there.
pub open spec fn cuttable(id: Seq<char>) -> bool {
    encode_utf8(id).len() <= 8 || is_char_boundary(encode_utf8(id), 8)
}

/// The first 8 bytes of an id, as characters.
pub open spec fn id_head(id: Seq<char>) -> Seq<char> {
    if encode_utf8(id).len() <= 8 {
        id
    } else {
        decode_utf8(encode_utf8(id).subrange(0, 8))
    }
}

fn cut_id(id: &str) -> (r: &str)
    requires
        cuttable(id@),
    ensures
        r@ == id_head(id@),
{
    let bytes = id.as_bytes();
    if bytes.len() <= 8 {
        id
    } else {
        let (head, _) = id.split_at(8);
        proof {
            encode_utf8_decode_utf8(head@);
            assert(head.spec_bytes() == encode_utf8(head@));
            assert(encode_utf8(head@) == encode_utf8(id@).subrange(0, 8));
            assert(decode_utf8(encode_utf8(head@)) == head@);
        }
        head
    }
}

/// The stem shared by both candidate file names: the song's file-name stem
/// and the finishing time in China Standard Time.
pub open spec fn karaoke_base(title: Seq<char>, created: Moment) -> Seq<char> {
    song_file_stem(title) + "_"@ + shanghai_text(
        created.unix_secs(),
        created.subsec_nanos(),
        "%Y%m%d_%H%M%S"@,
    )
}

pub open spec fn shanghai_display_of(m: Moment) -> Seq<char> {
    shanghai_text(m.unix_secs(), m.subsec_nanos(), "%Y-%m-%d %H:%M:%S"@)
}

/// The recording that closing session `s` (requested as `id`) at `created`
/// produces, under its preferred file name.
pub open spec fn planned_record(
    r: KaraokeRecording,
    s: ChunkSession<KaraokeMeta>,
    id: Seq<char>,
    client_seconds: i64,
    created: Moment,
) -> bool {
    &&& r.id == s.id
    &&& r.file@ == karaoke_base(s.meta.song_title@, created) + mime_extension(s.meta.mime@)
    &&& r.song_id == s.meta.song_id
    &&& r.song_title == s.meta.song_title
    &&& r.mode == s.meta.mode
    &&& r.duration_seconds == chosen_duration(
        client_seconds,
        whole_seconds_between(
            created.unix_secs(),
            created.subsec_nanos(),
            s.meta.started.unix_secs(),
            s.meta.started.subsec_nanos(),
        ),
    )
    &&& r.created_at_shanghai@ == shanghai_display_of(created)
    &&& r.started_at_shanghai@ == shanghai_display_of(s.meta.started)
    &&& r.bytes == s.bytes
    &&& r.url@ == "/singeros/api/karaoke/recordings/"@ + id + "/audio"@
}

/// The open sessions of the karaoke recording store.
pub struct KaraokeBook {
    sessions: ChunkSessions<KaraokeMeta>,
}

impl View for KaraokeBook {
    type V = Map<Seq<char>, ChunkSession<KaraokeMeta>>;

    closed spec fn view(&self) -> Map<Seq<char>, ChunkSession<KaraokeMeta>> {
        self.sessions@
    }
}

impl KaraokeBook {
    #[verifier::type_invariant]
    spec fn ids_cuttable(&self) -> bool {
        forall|k: Seq<char>| #[trigger] self.sessions@.contains_key(k) ==> cuttable(k)
    }

    pub fn new() -> (r: Self)
        ensures
            r@ == Map::<Seq<char>, ChunkSession<KaraokeMeta>>::empty(),
    {
        KaraokeBook { sessions: ChunkSessions::new() }
    }

    /// Opens session `id` for a recording of `song_id` in `mode`; returns
    /// the start time in China Standard Time. The id is a fresh one from
    /// `new_id`, and so well formed.
    pub fn start(
        &mut self,
        id: String,
        song_id: String,
        song_title: String,
        mode: String,
        mime: String,
        started: Moment,
    ) -> (r: String)
        requires
            is_safe_id(encode_utf8(id@)),
        ensures
            final(self)@ == old(self)@.insert(
                id@,
                ChunkSession {
                    id,
                    seq: 0,
                    bytes: 0,
                    meta: KaraokeMeta { song_id, song_title, mode, mime, started },
                },
            ),
            r@ == shanghai_display_of(started),
    {
        proof {
            use_type_invariant(&*self);
            lemma_safe_id_cuttable(id@);
        }
        let mut sessions = ChunkSessions::new();
        std::mem::swap(&mut sessions, &mut self.sessions);
        sessions.begin(id, KaraokeMeta { song_id, song_title, mode, mime, started });
        self.sessions = sessions;
        started.shanghai_display()
    }

    /// The verdict on a chunk for session `id`; nothing changes.
    pub fn check_append(&self, id: &str, seq: u64, len: usize) -> (r: Result<(), ChunkError>)
        ensures
            r == chunk_verdict(self@, id@, seq, len as nat),
    {
        self.sessions.check_chunk(id, seq, len)
    }

    /// Whether session `id` is open and can count one more chunk of `len`
    /// bytes.
    pub fn room_for(&self, id: &str, len: usize) -> (r: bool)
        ensures
            r == (self@.contains_key(id@) && has_room(self@[id@], len as nat)),
    {
        self.sessions.room_for(id, len)
    }

    /// Counts a chunk of `len` bytes that was written for session `id`.
    pub fn append(&mut self, id: &str, len: usize) -> (n: u64)
        requires
            old(self)@.contains_key(id@),
            has_room(old(self)@[id@], len as nat),
        ensures
            n == len,
            final(self)@ == old(self)@.insert(id@, after_chunk(old(self)@[id@], len as nat)),
    {
        proof {
            use_type_invariant(&*self);
        }
        let mut sessions = ChunkSessions::new();
        std::mem::swap(&mut sessions, &mut self.sessions);
        let n = sessions.append(id, len);
        self.sessions = sessions;
        n
    }

    /// Closes session `id` at `created`. `client_seconds` is the length the
    /// client reported, rounded to whole seconds.
    pub fn finalize(&mut self, id: &str, client_seconds: i64, created: Moment) -> (r: Result<
        KaraokeFinalize,
        FinalizeError,
    >)
        ensures
            !old(self)@.contains_key(id@) ==> r == Err::<KaraokeFinalize, FinalizeError>(
                FinalizeError::NotActive,
            ) && final(self)@ == old(self)@,
            old(self)@.contains_key(id@) ==> {
                let s = old(self)@[id@];
                &&& r matches Ok(p)
                &&& planned_record(p.record, s, id@, client_seconds, created)
                &&& p.fallback_file@ == karaoke_base(s.meta.song_title@, created) + "_"@
                    + id_head(id@) + mime_extension(s.meta.mime@)
                &&& final(self)@ == old(self)@.remove(id@)
            },
    {
        proof {
            use_type_invariant(&*self);
        }
        let mut sessions = ChunkSessions::new();
        std::mem::swap(&mut sessions, &mut self.sessions);
        let taken = sessions.take(id);
        self.sessions = sessions;
        let s = match taken {
            None => {
                assert(self@ =~= old(self)@);
                return Err(FinalizeError::NotActive);
            },
            Some(s) => s,
        };
        let elapsed = created.whole_seconds_since(&s.meta.started);
        let duration = choose_duration(client_seconds, elapsed);
        let mut base = safe_song_filename(s.meta.song_title.as_str());
        push_text(&mut base, "_");
        let stamp = created.shanghai_compact();
        push_text(&mut base, stamp.as_str());
        let ext = ext_for_mime(s.meta.mime.as_str());
        let mut file = base.clone();
        push_text(&mut file, ext);
        let mut fallback_file = base;
        push_text(&mut fallback_file, "_");
        push_text(&mut fallback_file, cut_id(id));
        push_text(&mut fallback_file, ext);
        let mut url = "/singeros/api/karaoke/recordings/".to_owned();
        push_text(&mut url, id);
        push_text(&mut url, "/audio");
        let created_at_shanghai = created.shanghai_display();
        let started_at_shanghai = s.meta.started.shanghai_display();
        let record = KaraokeRecording {
            id: s.id,
            file,
            song_id: s.meta.song_id,
            song_title: s.meta.song_title,
            mode: s.meta.mode,
            duration_seconds: duration,
            created_at_shanghai,
            started_at_shanghai,
            bytes: s.bytes,
            url,
        };
        Ok(KaraokeFinalize { record, fallback_file })
    }
}

impl KaraokeFinalize {
    /// The recording as stored: under the preferred name, or under the
    /// fallback name when a file of the preferred name already exists.
    pub fn settle(self, preferred_taken: bool) -> (r: KaraokeRecording)
        ensures
            preferred_taken ==> r == (KaraokeRecording { file: self.fallback_file, ..self.record }),
            !preferred_taken ==> r == self.record,
    {
        if preferred_taken {
            KaraokeRecording { file: self.fallback_file, ..self.record }
        } else {
            self.record
        }
    }
}


// ---------------------------------------------------------------------------
// Backing tracks
// ---------------------------------------------------------------------------

/// Where one mode of a song comes from, as the catalog records it.
pub struct TrackSource {
    pub mode: String,
    pub source_type: String,
    pub source_file: String,
}

/// A catalog song, reduced to what locating its tracks reads.
pub struct SongAssets {
    pub id: String,
    pub tracks: Vec<TrackSource>,
}

/// The karaoke catalog, reduced to what locating tracks reads.
pub struct AssetIndex {
    pub songs: Vec<SongAssets>,
}

/// A track file: `file` inside the directory `dir` of the assets root.
pub struct AssetFile {
    pub dir: String,
    pub file: String,
}

pub open spec fn file_prefix() -> Seq<char> {
    seq!['F', 'i', 'l', 'e', ':']
}

/// `s.trim_start_matches("File:")`: every leading `File:` removed.
pub open spec fn strip_file_prefixes(s: Seq<char>) -> Seq<char>
    decreases s.len(),
{
    if s.len() >= 5 && s.take(5) == file_prefix() {
        strip_file_prefixes(s.skip(5))
    } else {
        s
    }
}

/// The first song with the given id.
pub open spec fn first_song(songs: Seq<SongAssets>, id: Seq<char>) -> Option<int> {
    if exists|i: int| 0 <= i < songs.len() && songs[i].id@ == id {
        Some(
            choose|i: int|
                0 <= i < songs.len() && songs[i].id@ == id && forall|j: int|
                    0 <= j < i ==> songs[j].id@ != id,
        )
    } else {
        None
    }
}

/// Each mode names at most one track of a song, as in the catalog's map
/// from mode to track.
pub open spec fn modes_distinct(tracks: Seq<TrackSource>) -> bool {
    forall|i: int, j: int|
        0 <= i < tracks.len() && 0 <= j < tracks.len() && i != j ==> #[trigger] tracks[i].mode@
            != #[trigger] tracks[j].mode@
}

/// With one track per mode, the first track of a mode is the track of
/// that mode.
pub proof fn lemma_track_of_mode(tracks: Seq<TrackSource>, j: int)
    requires
        modes_distinct(tracks),
        0 <= j < tracks.len(),
    ensures
        first_track(tracks, tracks[j].mode@) == Some(j),
{
    let mode = tracks[j].mode@;
    assert(exists|i: int| 0 <= i < tracks.len() && tracks[i].mode@ == mode);
    let k = first_track(tracks, mode).unwrap();
    if k != j {
        assert(tracks[k].mode@ != tracks[j].mode@);
    }
}

/// The first track of the given mode.
pub open spec fn first_track(tracks: Seq<TrackSource>, mode: Seq<char>) -> Option<int> {
    if exists|i: int| 0 <= i < tracks.len() && tracks[i].mode@ == mode {
        Some(
            choose|i: int|
                0 <= i < tracks.len() && tracks[i].mode@ == mode && forall|j: int|
                    0 <= j < i ==> tracks[j].mode@ != mode,
        )
    } else {
        None
    }
}

pub open spec fn all_ascii_alphanumeric(s: Seq<char>) -> bool {
    forall|i: int| 0 <= i < s.len() ==> is_ascii_alphanumeric_char(#[trigger] s[i])
}

/// The file of a local track: `<mode>.<ext>`, where `ext` is the extension
/// of its source file (any `File:` prefixes removed) and is at most eight
/// ASCII letters and digits.
pub open spec fn track_file(mode: Seq<char>, t: TrackSource) -> Option<Seq<char>> {
    if t.source_type@ != "local"@ {
        None
    } else {
        match extension_text(strip_file_prefixes(t.source_file@)) {
            None => None,
            Some(e) => if e.len() <= 8 && all_ascii_alphanumeric(e) {
                Some(mode + "."@ + e)
            } else {
                None
            },
        }
    }
}

/// Where the track of `song_id` in `mode` is stored, if the request is well
/// formed and the catalog has a local track for it.
pub open spec fn asset_location(
    songs: Seq<SongAssets>,
    song_id: Seq<char>,
    mode: Seq<char>,
) -> Option<(Seq<char>, Seq<char>)> {
    if !is_safe_component(encode_utf8(song_id)) || !(mode == "original"@ || mode
        == "accompaniment"@) {
        None
    } else {
        match first_song(songs, song_id) {
            None => None,
            Some(i) => match first_track(songs[i].tracks@, mode) {
                None => None,
                Some(j) => match track_file(mode, songs[i].tracks@[j]) {
                    None => None,
                    Some(f) => Some((song_id, f)),
                },
            },
        }
    }
}

proof fn lemma_first_song_is(songs: Seq<SongAssets>, id: Seq<char>, i: int)
    requires
        0 <= i < songs.len(),
        songs[i].id@ == id,
        forall|k: int| 0 <= k < i ==> songs[k].id@ != id,
    ensures
        first_song(songs, id) == Some(i),
{
    let f = first_song(songs, id).unwrap();
    if f < i {
        assert(songs[f].id@ != id);
    } else if f > i {
        assert(songs[i].id@ != id);
    }
}

proof fn lemma_first_track_is(tracks: Seq<TrackSource>, mode: Seq<char>, j: int)
    requires
        0 <= j < tracks.len(),
        tracks[j].mode@ == mode,
        forall|k: int| 0 <= k < j ==> tracks[k].mode@ != mode,
    ensures
        first_track(tracks, mode) == Some(j),
{
    let f = first_track(tracks, mode).unwrap();
    if f < j {
        assert(tracks[f].mode@ != mode);
    } else if f > j {
        assert(tracks[j].mode@ != mode);
    }
}

/// A local track is found: for a well-formed song id and mode, when song
/// `i` is the first with that id and track `j` its first of that mode, the
/// track is local, and the extension of its source file (leading `File:`
/// prefixes removed) is at most 8 characters, each an ASCII digit or
/// letter, the track is the file `<mode>.<extension>` in the song's
/// directory.
pub proof fn law_local_track_found(
    songs: Seq<SongAssets>,
    song_id: Seq<char>,
    mode: Seq<char>,
    i: int,
    j: int,
    ext: Seq<char>,
)
    requires
        is_safe_component(encode_utf8(song_id)),
        mode == "original"@ || mode == "accompaniment"@,
        0 <= i < songs.len(),
        songs[i].id@ == song_id,
        forall|k: int| 0 <= k < i ==> songs[k].id@ != song_id,
        0 <= j < songs[i].tracks@.len(),
        songs[i].tracks@[j].mode@ == mode,
        forall|k: int| 0 <= k < j ==> songs[i].tracks@[k].mode@ != mode,
        songs[i].tracks@[j].source_type@ == "local"@,
        extension_text(strip_file_prefixes(songs[i].tracks@[j].source_file@)) == Some(ext),
        ext.len() <= 8,
        forall|k: int|
            0 <= k < ext.len() ==> ('0' <= #[trigger] ext[k] && ext[k] <= '9') || ('A' <= ext[k]
                && ext[k] <= 'Z') || ('a' <= ext[k] && ext[k] <= 'z'),
    ensures
        asset_location(songs, song_id, mode) == Some((song_id, mode + "."@ + ext)),
{
    lemma_first_song_is(songs, song_id, i);
    lemma_first_track_is(songs[i].tracks@, mode, j);
    assert(all_ascii_alphanumeric(ext));
}

/// Only the modes `original` and `accompaniment` are served, and only for
/// a song the catalog has.
pub proof fn law_asset_request_checked(songs: Seq<SongAssets>, song_id: Seq<char>, mode: Seq<char>)
    ensures
        !(mode == "original"@ || mode == "accompaniment"@) ==> asset_location(songs, song_id, mode)
            is None,
        (forall|k: int| 0 <= k < songs.len() ==> #[trigger] songs[k].id@ != song_id)
            ==> asset_location(songs, song_id, mode) is None,
{
}

/// Leading `File:` prefixes of a source file are removed, however many,
/// and nothing else is.
pub proof fn law_file_prefixes_removed(s: Seq<char>)
    ensures
        strip_file_prefixes(seq!['F', 'i', 'l', 'e', ':'] + s) == strip_file_prefixes(s),
        (s.len() < 5 || s.take(5) != seq!['F', 'i', 'l', 'e', ':']) ==> strip_file_prefixes(s)
            == s,
{
    let t = seq!['F', 'i', 'l', 'e', ':'] + s;
    assert(t.take(5) =~= seq!['F', 'i', 'l', 'e', ':']);
    assert(t.skip(5) =~= s);
}

/// A track is not served when it is not local, when its source file has
/// no extension, or when the extension is longer than 8 characters or
/// holds a character `k` that is no ASCII digit or letter.
pub proof fn law_odd_track_refused(
    songs: Seq<SongAssets>,
    song_id: Seq<char>,
    mode: Seq<char>,
    i: int,
    j: int,
    k: int,
)
    requires
        0 <= i < songs.len(),
        songs[i].id@ == song_id,
        forall|x: int| 0 <= x < i ==> songs[x].id@ != song_id,
        0 <= j < songs[i].tracks@.len(),
        songs[i].tracks@[j].mode@ == mode,
        forall|x: int| 0 <= x < j ==> songs[i].tracks@[x].mode@ != mode,
        ({
            let t = songs[i].tracks@[j];
            let e = extension_text(strip_file_prefixes(t.source_file@));
            ||| t.source_type@ != "local"@
            ||| e is None
            ||| e.unwrap().len() > 8
            ||| (0 <= k < e.unwrap().len() && !(('0' <= e.unwrap()[k] && e.unwrap()[k] <= '9') || (
                'A' <= e.unwrap()[k] && e.unwrap()[k] <= 'Z') || ('a' <= e.unwrap()[k]
                && e.unwrap()[k] <= 'z')))
        }),
    ensures
        asset_location(songs, song_id, mode) is None,
{
    lemma_first_song_is(songs, song_id, i);
    lemma_first_track_is(songs[i].tracks@, mode, j);
}

/// A located track file is a single plain file name inside the song's
/// directory, which is itself a safe path component.
pub proof fn law_asset_file_is_plain(songs: Seq<SongAssets>, song_id: Seq<char>, mode: Seq<char>)
    requires
        asset_location(songs, song_id, mode) is Some,
    ensures
        ({
            let (dir, file) = asset_location(songs, song_id, mode).unwrap();
            &&& dir == song_id
            &&& is_safe_component(encode_utf8(dir))
            &&& file.len() > 0
            &&& !file.contains('/')
        }),
{
    reveal_strlit("original");
    reveal_strlit("accompaniment");
    reveal_strlit(".");
    let (dir, file) = asset_location(songs, song_id, mode).unwrap();
    let i = first_song(songs, song_id).unwrap();
    let j = first_track(songs[i].tracks@, mode).unwrap();
    let e = extension_text(strip_file_prefixes(songs[i].tracks@[j].source_file@)).unwrap();
    assert(file == mode + "."@ + e);
    assert forall|k: int| 0 <= k < file.len() implies file[k] != '/' by {
        if k < mode.len() {
            assert(file[k] == mode[k]);
        } else if k == mode.len() {
        } else {
            assert(file[k] == e[k - mode.len() - 1]);
            assert(is_ascii_alphanumeric_char(e[k - mode.len() - 1]));
        }
    }
}

fn strip_file_prefix_text(s: &str) -> (r: Vec<char>)
    ensures
        r@ == strip_file_prefixes(s@),
{
    let c = to_chars(s);
    let n = c.len();
    let mut i: usize = 0;
    assert(c@.skip(0) =~= c@);
    proof {
        reveal_strlit("File:");
        assert("File:"@ =~= file_prefix());
    }
    while n - i >= 5 && chars_equal(&c, i, i + 5, "File:")
        invariant
            n == c@.len(),
            0 <= i <= n,
            "File:"@ == file_prefix(),
            strip_file_prefixes(s@) == strip_file_prefixes(c@.skip(i as int)),
            c@ == s@,
        decreases n - i,
    {
        assert(c@.skip(i as int).take(5) =~= c@.subrange(i as int, i + 5));
        assert(c@.skip(i as int).skip(5) =~= c@.skip(i + 5));
        i = i + 5;
    }
    proof {
        if n - i >= 5 {
            assert(c@.skip(i as int).take(5) =~= c@.subrange(i as int, i + 5));
        }
    }
    let mut out: Vec<char> = Vec::new();
    let mut j = i;
    while j < n
        invariant
            n == c@.len(),
            i <= j <= n,
            out@ == c@.subrange(i as int, j as int),
        decreases n - j,
    {
        out.push(c[j]);
        assert(c@.subrange(i as int, j + 1) =~= c@.subrange(i as int, j as int).push(c@[j as int]));
        j = j + 1;
    }
    assert(c@.subrange(i as int, n as int) =~= c@.skip(i as int));
    out
}

fn find_song(songs: &Vec<SongAssets>, id: &str) -> (r: Option<usize>)
    ensures
        r matches Some(i) ==> first_song(songs@, id@) == Some(i as int) && i < songs@.len(),
        r is None ==> first_song(songs@, id@) is None,
{
    let mut i: usize = 0;
    while i < songs.len()
        invariant
            0 <= i <= songs@.len(),
            forall|j: int| 0 <= j < i ==> songs@[j].id@ != id@,
        decreases songs@.len() - i,
    {
        if str_eq(songs[i].id.as_str(), id) {
            let ghost k = choose|k: int|
                0 <= k < songs@.len() && songs@[k].id@ == id@ && forall|j: int|
                    0 <= j < k ==> songs@[j].id@ != id@;
            assert(k == i) by {
                if k < i {
                } else if k > i {
                    assert(songs@[i as int].id@ != id@);
                }
            }
            return Some(i);
        }
        i = i + 1;
    }
    None
}

fn find_track(tracks: &Vec<TrackSource>, mode: &str) -> (r: Option<usize>)
    ensures
        r matches Some(i) ==> first_track(tracks@, mode@) == Some(i as int) && i < tracks@.len(),
        r is None ==> first_track(tracks@, mode@) is None,
{
    let mut i: usize = 0;
    while i < tracks.len()
        invariant
            0 <= i <= tracks@.len(),
            forall|j: int| 0 <= j < i ==> tracks@[j].mode@ != mode@,
        decreases tracks@.len() - i,
    {
        if str_eq(tracks[i].mode.as_str(), mode) {
            let ghost k = choose|k: int|
                0 <= k < tracks@.len() && tracks@[k].mode@ == mode@ && forall|j: int|
                    0 <= j < k ==> tracks@[j].mode@ != mode@;
            assert(k == i) by {
                if k < i {
                } else if k > i {
                    assert(tracks@[i as int].mode@ != mode@);
                }
            }
            return Some(i);
        }
        i = i + 1;
    }
    None
}

impl AssetIndex {
    /// Where the track of `song_id` in `mode` is stored. Every song of the
    /// catalog has at most one track per mode.
    pub fn asset(&self, song_id: &str, mode: &str) -> (r: Option<AssetFile>)
        requires
            forall|i: int| 0 <= i < self.songs@.len() ==> modes_distinct(#[trigger] self.songs@[i].tracks@),
        ensures
            match r {
                Some(a) => asset_location(self.songs@, song_id@, mode@) == Some((a.dir@, a.file@)),
                None => asset_location(self.songs@, song_id@, mode@) is None,
            },
    {
        if !safe_component(song_id) || !(str_eq(mode, "original") || str_eq(mode, "accompaniment")) {
            return None;
        }
        let i = match find_song(&self.songs, song_id) {
            None => return None,
            Some(i) => i,
        };
        let song = &self.songs[i];
        let j = match find_track(&song.tracks, mode) {
            None => return None,
            Some(j) => j,
        };
        let track = &song.tracks[j];
        if !str_eq(track.source_type.as_str(), "local") {
            return None;
        }
        let stripped = strip_file_prefix_text(track.source_file.as_str());
        let source = string_of(&stripped, 0, stripped.len());
        assert(stripped@.subrange(0, stripped@.len() as int) =~= stripped@);
        let ext = match file_extension(source.as_str()) {
            None => return None,
            Some(e) => e,
        };
        let e = to_chars(ext.as_str());
        if e.len() > 8 {
            return None;
        }
        let mut k: usize = 0;
        while k < e.len() && ascii_alphanumeric_char(e[k])
            invariant
                0 <= k <= e@.len(),
                forall|x: int| 0 <= x < k ==> is_ascii_alphanumeric_char(#[trigger] e@[x]),
            decreases e@.len() - k,
        {
            k = k + 1;
        }
        if k < e.len() {
            return None;
        }
        let mut file = mode.to_owned();
        push_text(&mut file, ".");
        push_text(&mut file, ext.as_str());
        Some(AssetFile { dir: song_id.to_owned(), file })
    }
}

} // verus!
