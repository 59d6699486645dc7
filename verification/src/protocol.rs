//! Types shared by the browser and the server.
use vstd::prelude::*;

verus! {

/// Which track of a song plays.
#[derive(Clone, Copy, Debug, PartialEq, Eq)]
pub enum PlaybackMode {
    Original,
    Accompaniment,
}

/// One line of timed lyrics, in milliseconds from the start of the song.
#[derive(Clone, Debug, PartialEq, Eq)]
pub struct LyricCue {
    pub start_ms: u32,
    pub end_ms: u32,
    pub text: String,
}

/// A song of the karaoke catalog.
#[derive(Clone, Debug, PartialEq, Eq)]
pub struct KaraokeSong {
    pub id: String,
    pub title: String,
    pub artist: String,
    pub album: String,
    pub language: String,
    pub lyrics: Vec<LyricCue>,
}

/// An audio input the browser offers.
#[derive(Clone, Debug, PartialEq, Eq)]
pub struct DeviceOption {
    pub id: String,
    pub label: String,
}

} // verus!
