use vstd::prelude::*;

verus! {

/// The playback intent gameplay code writes on an audio source; the
/// audio trigger system turns changes of it into backend calls.
#[derive(Debug, Clone, Copy, PartialEq, Eq, Hash, Structural)]
pub enum SourceState {
    /// Not playing; a tracked voice is stopped and forgotten.
    Stopped,
    /// Playing; a voice is started if none is tracked, or resumed.
    Playing,
    /// Paused; a tracked voice is paused and kept.
    Paused,
}

/// Marks the entity whose pose the audio listener follows; without one,
/// the listener sits at the origin facing down the negative Z axis.
#[derive(Debug, Clone, Copy, PartialEq, Eq, Hash, Default)]
pub struct AudioListener;

/// Which audio backend an `AudioConfig` selects.
#[derive(Debug, Clone, Copy, PartialEq, Eq, Hash, Structural)]
#[non_exhaustive]
pub enum AudioBackendName {
    /// The `rodio` backend.
    Rodio,
}

impl AudioBackendName {
    /// The backend's configuration spelling.
    pub fn as_str(self) -> (r: &'static str)
        ensures
            self == AudioBackendName::Rodio ==> r@ == "rodio"@,
    {
        match self {
            AudioBackendName::Rodio => "rodio",
        }
    }
}

} // verus!
