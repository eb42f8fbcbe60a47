use vstd::prelude::*;

verus! {

/// How an audio entity behaves once its source has played to the end.
#[derive(Clone, Copy, Debug, PartialEq, Eq, Structural)]
pub enum PlaybackMode {
    /// Play once and keep the entity.
    Once,
    /// Start over from the beginning, indefinitely.
    Loop,
    /// Play once, then despawn the entity.
    Despawn,
    /// Play once, then remove the audio components from the entity.
    Remove,
}

/// The audio that an entity plays: an asset handle and how playback repeats.
#[derive(Clone, Copy, Debug, PartialEq, Eq, Structural)]
pub struct AudioPlayback {
    pub handle: u64,
    pub mode: PlaybackMode,
}

impl AudioPlayback {
    /// Playback of `handle` that loops indefinitely, as a soundtrack does.
    pub fn looping(handle: u64) -> (r: AudioPlayback)
        ensures
            r.handle == handle,
            r.mode == PlaybackMode::Loop,
    {
        AudioPlayback { handle, mode: PlaybackMode::Loop }
    }
}

} // verus!
