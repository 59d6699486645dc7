//! Audio routes as types: only a microphone-only route can be recorded, so
//! program (song) audio cannot reach a recording by construction.
use vstd::prelude::*;

verus! {

/// A route that carries the microphone alone.
pub struct MicOnly;

/// A route that carries the program mix (song and microphone).
pub struct ProgramMix;

/// An audio graph that has not started.
pub struct Idle;

/// An audio graph that runs.
pub struct Running;

/// Routes that a recorder may be attached to. Only `MicOnly` is one.
pub trait RecordableRoute {}

impl RecordableRoute for MicOnly {}

/// Buses on which program audio is present.
pub trait ProgramAudioPresent {}

/// Buses on which program audio is known to be absent.
pub trait ProgramAudioAbsent {}

/// The bus that carries the microphone alone.
pub struct MicOnlyBus;

/// The bus that carries the program mix.
pub struct MixedBus;

impl ProgramAudioPresent for MixedBus {}

impl ProgramAudioAbsent for MicOnlyBus {}

/// Compiles only for buses without program audio.
pub fn require_program_audio_absent<T: ProgramAudioAbsent>() {
}

/// The kind of a route, as a value.
#[derive(Clone, Copy, Debug, PartialEq, Eq)]
pub enum RouteKind {
    MicOnly,
    ProgramMix,
}

/// A route type and the kind it stands for.
pub trait RouteMarker {
    spec fn spec_kind() -> RouteKind;

    fn kind() -> (k: RouteKind)
        ensures
            k == Self::spec_kind(),
    ;
}

impl RouteMarker for MicOnly {
    open spec fn spec_kind() -> RouteKind {
        RouteKind::MicOnly
    }

    fn kind() -> (k: RouteKind) {
        RouteKind::MicOnly
    }
}

impl RouteMarker for ProgramMix {
    open spec fn spec_kind() -> RouteKind {
        RouteKind::ProgramMix
    }

    fn kind() -> (k: RouteKind) {
        RouteKind::ProgramMix
    }
}

/// A recorder attached to a microphone-only graph.
pub struct Recorder;

/// An audio graph whose route is part of its type.
pub struct AudioGraph<R> {
    route: core::marker::PhantomData<R>,
}

impl<R: RouteMarker> AudioGraph<R> {
    pub fn new() -> Self {
        AudioGraph { route: core::marker::PhantomData }
    }

    /// The kind of this graph's route.
    pub fn route(&self) -> (k: RouteKind)
        ensures
            k == R::spec_kind(),
    {
        R::kind()
    }
}

impl AudioGraph<MicOnly> {
    /// Only a microphone-only graph can be recorded.
    pub fn attach_recorder(&self) -> Recorder {
        Recorder
    }
}

impl AudioGraph<ProgramMix> {
    /// A program-mix graph can only be listened to.
    pub fn monitor_only(&self) {
    }
}

/// Probes that the AudioWorklet audio backend builds; there is nothing to
/// probe outside WebAssembly.
pub fn compile_probe() {
}

} // verus!
