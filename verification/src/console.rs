//! The browser console: microphone engine levels, the level meter, and the
//! bookkeeping of chunks uploaded while recording.
use vstd::prelude::*;

use crate::text::{decimal, push_decimal, push_text};

verus! {

/// The highest record gain, in percent.
pub const RECORD_GAIN_CEILING: u16 = 300;

/// The highest monitor gain, in percent.
pub const MONITOR_GAIN_CEILING: u16 = 200;

/// The record gain an engine opens with, in percent.
pub const OPENING_RECORD_GAIN: u16 = 170;

/// The monitor level an engine opens with, in percent.
pub const OPENING_MONITOR_LEVEL: u16 = 100;

/// The adjustable state of an open microphone engine.
#[derive(Clone, Copy, Debug, PartialEq, Eq)]
pub struct EngineLevels {
    /// The monitor level chosen, in percent; heard only while enabled.
    pub monitor_level: u16,
    pub monitor_enabled: bool,
    /// Whether automatic feedback suppression runs.
    pub afs_enabled: bool,
}

/// The console: the open engine, if any, and whether a recorder runs.
#[derive(Clone, Copy, Debug, PartialEq, Eq)]
pub struct Console {
    pub engine: Option<EngineLevels>,
    pub recording: bool,
}

/// What the monitor path plays at, in percent: the chosen level while the
/// monitor is enabled, silence otherwise.
pub open spec fn monitor_output(l: EngineLevels) -> u16 {
    if l.monitor_enabled {
        l.monitor_level
    } else {
        0
    }
}

pub open spec fn min_u16(a: u16, b: u16) -> u16 {
    if a < b {
        a
    } else {
        b
    }
}

impl Console {
    /// No engine is open and nothing records.
    pub fn new() -> (r: Console)
        ensures
            r.engine is None,
            !r.recording,
    {
        Console { engine: None, recording: false }
    }

    /// A freshly opened engine replaces any previous one: monitor at 100 %
    /// but disabled, feedback suppression on, no recorder. Returns the record
    /// gain to apply, in percent.
    pub fn open_engine(&mut self) -> (r: u16)
        ensures
            final(self).engine == Some(
                EngineLevels {
                    monitor_level: OPENING_MONITOR_LEVEL,
                    monitor_enabled: false,
                    afs_enabled: true,
                },
            ),
            !final(self).recording,
            r == OPENING_RECORD_GAIN,
    {
        self.recording = false;
        self.engine = Some(
            EngineLevels {
                monitor_level: OPENING_MONITOR_LEVEL,
                monitor_enabled: false,
                afs_enabled: true,
            },
        );
        OPENING_RECORD_GAIN
    }

    /// Stops any recorder and drops the engine.
    pub fn close(&mut self)
        ensures
            final(self).engine is None,
            !final(self).recording,
    {
        self.recording = false;
        self.engine = None;
    }

    /// A recorder was started on the open engine; without an engine there
    /// is nothing to record from, and nothing changes.
    pub fn recording_started(&mut self) -> (r: Result<(), String>)
        ensures
            final(self).engine == old(self).engine,
            old(self).engine is Some ==> r is Ok && final(self).recording,
            old(self).engine is None ==> (r matches Err(e) && e@ == "microphone is not open"@)
                && final(self).recording == old(self).recording,
    {
        if self.engine.is_none() {
            return Err("microphone is not open".to_owned());
        }
        self.recording = true;
        Ok(())
    }
}

pub fn is_open(console: &Console) -> (r: bool)
    ensures
        r == console.engine is Some,
{
    console.engine.is_some()
}

/// The record gain to apply, in percent (at most 300), when an engine is
/// open.
pub fn set_record_gain(console: &Console, percent: u16) -> (r: Option<u16>)
    ensures
        console.engine is None ==> r is None,
        console.engine is Some ==> r == Some(min_u16(percent, RECORD_GAIN_CEILING)),
{
    match console.engine {
        None => None,
        Some(_) => Some(
            if percent < RECORD_GAIN_CEILING {
                percent
            } else {
                RECORD_GAIN_CEILING
            },
        ),
    }
}

/// Chooses the monitor level (at most 200 %). Returns the gain to apply to
/// the monitor path, which changes only while the monitor is enabled.
pub fn set_monitor_gain(console: &mut Console, percent: u16) -> (r: Option<u16>)
    ensures
        final(console).recording == old(console).recording,
        match old(console).engine {
            None => final(console).engine is None && r is None,
            Some(l) => {
                let n = EngineLevels {
                    monitor_level: min_u16(percent, MONITOR_GAIN_CEILING),
                    ..l
                };
                &&& final(console).engine == Some(n)
                &&& r == if l.monitor_enabled {
                    Some(monitor_output(n))
                } else {
                    None::<u16>
                }
            },
        },
{
    match console.engine {
        None => None,
        Some(l) => {
            let level = if percent < MONITOR_GAIN_CEILING {
                percent
            } else {
                MONITOR_GAIN_CEILING
            };
            console.engine = Some(EngineLevels { monitor_level: level, ..l });
            if l.monitor_enabled {
                Some(level)
            } else {
                None
            }
        },
    }
}

/// Turns the monitor on or off. Returns the gain to apply to the monitor
/// path: the chosen level when on, silence when off.
pub fn set_monitor_enabled(console: &mut Console, on: bool) -> (r: Option<u16>)
    ensures
        final(console).recording == old(console).recording,
        match old(console).engine {
            None => final(console).engine is None && r is None,
            Some(l) => {
                let n = EngineLevels { monitor_enabled: on, ..l };
                &&& final(console).engine == Some(n)
                &&& r == Some(monitor_output(n))
            },
        },
{
    match console.engine {
        None => None,
        Some(l) => {
            console.engine = Some(EngineLevels { monitor_enabled: on, ..l });
            if on {
                Some(l.monitor_level)
            } else {
                Some(0)
            }
        },
    }
}

/// Turns automatic feedback suppression on or off; returns the new setting
/// when an engine is open.
pub fn set_afs_enabled(console: &mut Console, on: bool) -> (r: Option<bool>)
    ensures
        final(console).recording == old(console).recording,
        match old(console).engine {
            None => final(console).engine is None && r is None,
            Some(l) => final(console).engine == Some(EngineLevels { afs_enabled: on, ..l }) && r
                == Some(on),
        },
{
    match console.engine {
        None => None,
        Some(l) => {
            console.engine = Some(EngineLevels { afs_enabled: on, ..l });
            Some(on)
        },
    }
}

/// Whether a recorder can be stopped.
pub fn stop_recording(console: &Console) -> (r: Result<(), String>)
    ensures
        console.recording ==> r is Ok,
        !console.recording ==> (r matches Err(e) && e@ == "recording is not active"@),
{
    if console.recording {
        Ok(())
    } else {
        Err("recording is not active".to_owned())
    }
}

/// Levels that the console can reach: the monitor level never exceeds the
/// monitor ceiling.
pub open spec fn levels_in_range(l: EngineLevels) -> bool {
    l.monitor_level <= MONITOR_GAIN_CEILING
}

/// The monitor path is silent unless the monitor is enabled, and never
/// louder than the monitor ceiling: opening an engine gives levels in range,
/// and each settings call keeps them in range.
pub proof fn law_monitor_output_bounded(l: EngineLevels, percent: u16, on: bool)
    ensures
        levels_in_range(
            EngineLevels {
                monitor_level: OPENING_MONITOR_LEVEL,
                monitor_enabled: false,
                afs_enabled: true,
            },
        ),
        levels_in_range(EngineLevels { monitor_level: min_u16(percent, MONITOR_GAIN_CEILING), ..l }),
        levels_in_range(l) ==> levels_in_range(EngineLevels { monitor_enabled: on, ..l }),
        levels_in_range(l) ==> levels_in_range(EngineLevels { afs_enabled: on, ..l }),
        levels_in_range(l) ==> monitor_output(l) <= MONITOR_GAIN_CEILING,
        !l.monitor_enabled ==> monitor_output(l) == 0,
{
}

// ---------------------------------------------------------------------------
// Level meter
// ---------------------------------------------------------------------------

pub open spec fn deviation_squared(v: u8) -> nat {
    ((v - 128) * (v - 128)) as nat
}

/// The sum of squared deviations of time-domain samples from the midpoint
/// 128; the meter shows the root mean square of it.
pub open spec fn signal_energy(s: Seq<u8>) -> nat
    decreases s.len(),
{
    if s.len() == 0 {
        0
    } else {
        signal_energy(s.drop_last()) + deviation_squared(s.last())
    }
}

pub fn time_domain_energy(samples: &Vec<u8>) -> (r: u128)
    ensures
        r == signal_energy(samples@),
{
    let mut acc: u128 = 0;
    let mut i: usize = 0;
    while i < samples.len()
        invariant
            0 <= i <= samples@.len(),
            acc == signal_energy(samples@.take(i as int)),
            acc <= 16384 * i,
        decreases samples@.len() - i,
    {
        let v = samples[i];
        let d: u128 = if v >= 128 {
            (v - 128) as u128
        } else {
            (128 - v) as u128
        };
        assert(samples@.take(i + 1).drop_last() =~= samples@.take(i as int));
        assert(d * d == deviation_squared(v)) by (nonlinear_arith)
            requires
                d == if v >= 128 { v - 128 } else { 128 - v },
        ;
        assert(d * d <= 16384) by (nonlinear_arith)
            requires
                d <= 128,
        ;
        acc = acc + d * d;
        i = i + 1;
    }
    assert(samples@.take(samples@.len() as int) =~= samples@);
    acc
}

// ---------------------------------------------------------------------------
// Uploads while recording
// ---------------------------------------------------------------------------

/// The bookkeeping of chunks handed to the uploader while a recorder runs.
pub struct ChunkUploads {
    pub next_seq: u64,
    pub pending: u32,
    pub error: Option<String>,
}

/// What to do once the recorder has stopped.
pub enum StopStep {
    /// Uploads are still running: look again later.
    Wait,
    /// An upload failed: report this error instead of finalizing.
    Fail(String),
    /// Everything arrived: finalize the recording.
    Finalize,
}

/// What happens while a recorder runs: it delivers a chunk of audio (maybe
/// an empty one), or the upload of an earlier chunk finishes.
pub enum UploadEvent {
    Chunk { empty: bool },
    Uploaded(Result<(), String>),
}

/// The bookkeeping after one event.
pub open spec fn upload_step(u: ChunkUploads, e: UploadEvent) -> ChunkUploads {
    match e {
        UploadEvent::Chunk { empty } => if empty {
            u
        } else {
            ChunkUploads {
                next_seq: (u.next_seq + 1) as u64,
                pending: (u.pending + 1) as u32,
                error: u.error,
            }
        },
        UploadEvent::Uploaded(outcome) => ChunkUploads {
            next_seq: u.next_seq,
            pending: if u.pending > 0 {
                (u.pending - 1) as u32
            } else {
                0
            },
            error: match outcome {
                Ok(()) => u.error,
                Err(e) => Some(e),
            },
        },
    }
}

/// The bookkeeping after a run of events, from a fresh start.
pub open spec fn uploads_after(events: Seq<UploadEvent>) -> ChunkUploads
    decreases events.len(),
{
    if events.len() == 0 {
        ChunkUploads { next_seq: 0, pending: 0, error: None }
    } else {
        upload_step(uploads_after(events.drop_last()), events.last())
    }
}

/// Whether an event delivers a non-empty chunk.
pub open spec fn delivers_chunk(e: UploadEvent) -> bool {
    e matches UploadEvent::Chunk { empty: false }
}

/// How many non-empty chunks a run delivered.
pub open spec fn chunks_delivered(events: Seq<UploadEvent>) -> nat
    decreases events.len(),
{
    if events.len() == 0 {
        0
    } else {
        chunks_delivered(events.drop_last()) + if delivers_chunk(events.last()) {
            1nat
        } else {
            0nat
        }
    }
}

/// How many uploads of a run finished.
pub open spec fn uploads_finished(events: Seq<UploadEvent>) -> nat
    decreases events.len(),
{
    if events.len() == 0 {
        0
    } else {
        uploads_finished(events.drop_last()) + if events.last() is Uploaded {
            1nat
        } else {
            0nat
        }
    }
}

/// The failure of the last upload of a run that failed, if any did.
pub open spec fn last_failure(events: Seq<UploadEvent>) -> Option<String>
    decreases events.len(),
{
    if events.len() == 0 {
        None
    } else {
        match events.last() {
            UploadEvent::Uploaded(Err(e)) => Some(e),
            _ => last_failure(events.drop_last()),
        }
    }
}

/// Whether every upload finishes after its chunk was delivered: no prefix
/// of the run has more finished uploads than delivered chunks.
pub open spec fn answers_follow_chunks(events: Seq<UploadEvent>) -> bool {
    forall|k: int|
        0 <= k <= events.len() ==> uploads_finished(#[trigger] events.take(k)) <= chunks_delivered(
            events.take(k),
        )
}

impl ChunkUploads {
    pub fn new() -> (r: ChunkUploads)
        ensures
            r == uploads_after(Seq::empty()),
    {
        ChunkUploads { next_seq: 0, pending: 0, error: None }
    }

    /// The recorder delivered a chunk. An empty one is skipped; any other
    /// takes the next sequence number, returned, and counts as pending.
    pub fn on_data(&mut self, empty: bool) -> (seq: Option<u64>)
        requires
            !empty ==> old(self).next_seq < u64::MAX && old(self).pending < u32::MAX,
        ensures
            *final(self) == upload_step(*old(self), UploadEvent::Chunk { empty }),
            empty ==> seq is None,
            !empty ==> seq == Some(old(self).next_seq),
    {
        if empty {
            return None;
        }
        let seq = self.next_seq;
        self.next_seq = seq + 1;
        self.pending = self.pending + 1;
        Some(seq)
    }

    /// An upload finished: it no longer counts as pending, and a failure is
    /// remembered (the latest one wins).
    pub fn on_upload_done(&mut self, outcome: Result<(), String>)
        ensures
            *final(self) == upload_step(*old(self), UploadEvent::Uploaded(outcome)),
    {
        if self.pending > 0 {
            self.pending = self.pending - 1;
        }
        match outcome {
            Ok(()) => {},
            Err(e) => {
                self.error = Some(e);
            },
        }
    }

    /// The step after the recorder stopped.
    pub fn stop_step(&self) -> (r: StopStep)
        ensures
            self.pending > 0 ==> r is Wait,
            self.pending == 0 && self.error is Some ==> (r matches StopStep::Fail(e) && e
                == self.error.unwrap()),
            self.pending == 0 && self.error is None ==> r is Finalize,
    {
        if self.pending > 0 {
            StopStep::Wait
        } else {
            match &self.error {
                Some(e) => StopStep::Fail(e.clone()),
                None => StopStep::Finalize,
            }
        }
    }
}

/// Over a whole recording run: the chunks are numbered 0, 1, 2, ... in the
/// order they are delivered, empty ones taking no number; the error kept is
/// that of the last failed upload; and, as long as every upload finishes
/// after its chunk was delivered, what is pending is the delivered chunks
/// whose upload has not finished. So the run is finalized only once every
/// delivered chunk was uploaded and none failed.
pub proof fn law_upload_run(events: Seq<UploadEvent>)
    requires
        chunks_delivered(events) < u32::MAX,
    ensures
        ({
            let u = uploads_after(events);
            &&& u.next_seq == chunks_delivered(events)
            &&& forall|i: int|
                0 <= i < events.len() && delivers_chunk(events[i]) ==> #[trigger] uploads_after(
                    events.take(i),
                ).next_seq == chunks_delivered(events.take(i))
            &&& u.pending <= chunks_delivered(events)
            &&& u.error == last_failure(events)
            &&& answers_follow_chunks(events) ==> u.pending == chunks_delivered(events)
                - uploads_finished(events)
            &&& answers_follow_chunks(events) && u.pending == 0 && u.error is None
                ==> uploads_finished(events) == chunks_delivered(events) && last_failure(
                events,
            ) is None
        }),
    decreases events.len(),
{
    if events.len() > 0 {
        let before = events.drop_last();
        if answers_follow_chunks(events) {
            assert forall|k: int| 0 <= k <= before.len() implies uploads_finished(
                #[trigger] before.take(k),
            ) <= chunks_delivered(before.take(k)) by {
                assert(before.take(k) =~= events.take(k));
            }
            assert(events.take(events.len() as int) =~= events);
        }
        lemma_chunks_delivered_grow(events);
        law_upload_run(before);
        assert forall|i: int|
            0 <= i < events.len() && delivers_chunk(events[i]) implies #[trigger] uploads_after(
                events.take(i),
            ).next_seq == chunks_delivered(events.take(i)) by {
            if i < before.len() {
                assert(before.take(i) =~= events.take(i));
            } else {
                assert(events.take(i) =~= before);
            }
        }
    }
}

proof fn lemma_chunks_delivered_grow(events: Seq<UploadEvent>)
    requires
        events.len() > 0,
    ensures
        chunks_delivered(events.drop_last()) <= chunks_delivered(events),
{
}

/// The MIME type a recording is announced with: the recorder's own, or
/// `audio/webm` when it reports none.
pub open spec fn announced_mime(reported: Seq<char>) -> Seq<char> {
    if reported.len() == 0 {
        "audio/webm"@
    } else {
        reported
    }
}

pub fn recording_mime(reported: &str) -> (r: String)
    ensures
        r@ == announced_mime(reported@),
{
    if reported.is_empty() {
        "audio/webm".to_owned()
    } else {
        reported.to_owned()
    }
}

/// `<base>/<id>/chunk?seq=<seq>`.
pub open spec fn chunk_url_text(base: Seq<char>, id: Seq<char>, seq: u64) -> Seq<char> {
    base + "/"@ + id + "/chunk?seq="@ + decimal(seq as nat)
}

pub fn chunk_url(base: &str, id: &str, seq: u64) -> (r: String)
    ensures
        r@ == chunk_url_text(base@, id@, seq),
{
    let mut s = base.to_owned();
    push_text(&mut s, "/");
    push_text(&mut s, id);
    push_text(&mut s, "/chunk?seq=");
    push_decimal(&mut s, seq);
    s
}

/// `<base>/<id>/finalize`.
pub open spec fn finalize_url_text(base: Seq<char>, id: Seq<char>) -> Seq<char> {
    base + "/"@ + id + "/finalize"@
}

pub fn finalize_url(base: &str, id: &str) -> (r: String)
    ensures
        r@ == finalize_url_text(base@, id@),
{
    let mut s = base.to_owned();
    push_text(&mut s, "/");
    push_text(&mut s, id);
    push_text(&mut s, "/finalize");
    s
}

/// The label shown for an audio input: its own, or "麦克风 <n>" for the
/// n-th input (counting from 1) when the browser hides the label.
pub open spec fn input_label_text(label: Seq<char>, position: usize) -> Seq<char> {
    if label.len() == 0 {
        "麦克风 "@ + decimal((position + 1) as nat)
    } else {
        label
    }
}

pub fn input_label(label: &str, position: usize) -> (r: String)
    requires
        position < usize::MAX,
    ensures
        r@ == input_label_text(label@, position),
{
    if label.is_empty() {
        let mut s = "麦克风 ".to_owned();
        push_decimal(&mut s, (position + 1) as u64);
        s
    } else {
        label.to_owned()
    }
}

} // verus!
