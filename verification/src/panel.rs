//! The recording panel's indicators: the status badge and which buttons can
//! be pressed.
use vstd::prelude::*;

verus! {

/// The badge text: recording wins over a ready microphone, and without
/// either the service itself is shown to be online.
pub open spec fn badge_text(mic_ready: bool, recording: bool) -> Seq<char> {
    if recording {
        "● RECORDING"@
    } else if mic_ready {
        "● MIC READY"@
    } else {
        "● RUST ONLINE"@
    }
}

pub fn badge(mic_ready: bool, recording: bool) -> (r: &'static str)
    ensures
        r@ == badge_text(mic_ready, recording),
{
    if recording {
        "● RECORDING"
    } else if mic_ready {
        "● MIC READY"
    } else {
        "● RUST ONLINE"
    }
}

/// Which of the panel's buttons can be pressed.
#[derive(Clone, Copy, Debug, PartialEq, Eq)]
pub struct PanelButtons {
    /// Ask for the microphone.
    pub request_microphone: bool,
    /// Start a recording.
    pub start: bool,
    /// Stop the recording and save it.
    pub stop: bool,
}

/// The microphone can be asked for until it is ready; a recording can start
/// once it is ready and none runs; only a running recording can be stopped.
pub fn panel_buttons(mic_ready: bool, recording: bool) -> (r: PanelButtons)
    ensures
        r.request_microphone == !mic_ready,
        r.start == (mic_ready && !recording),
        r.stop == recording,
{
    PanelButtons { request_microphone: !mic_ready, start: mic_ready && !recording, stop: recording }
}

} // verus!
