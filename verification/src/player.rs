use vstd::prelude::*;

verus! {

/// Where playback stands for the current source.
pub enum PlayerMode {
    Idle,
    Loaded,
    Playing,
    Paused,
}

/// The playback engine's decision state. The audio output itself — the
/// sink, the worker thread and its polling — lives outside the library and
/// obeys what this machine decides. Positions are counted in frames so
/// that the silence-skip comparison is exact.
pub struct Player {
    pub mode: PlayerMode,
    pub first_transit_frames: u64,
}

impl Player {
    pub fn new() -> (r: Player)
        ensures
            r.mode is Idle,
            r.first_transit_frames == 0,
    {
        Player { mode: PlayerMode::Idle, first_transit_frames: 0 }
    }

    /// Load a source: playback is cleared and the probed first-transit
    /// position is remembered for silence skipping.
    pub fn set_source(&mut self, first_transit_frames: u64)
        ensures
            final(self).mode is Loaded,
            final(self).first_transit_frames == first_transit_frames,
    {
        self.mode = PlayerMode::Loaded;
        self.first_transit_frames = first_transit_frames;
    }

    /// Start or continue playing. With `skip_silence` the seek position
    /// moves to the furthest of the requested position and the first
    /// non-zero sample.
    pub fn play(&mut self, seek_frames: u64, skip_silence: bool) -> (pos: u64)
        requires
            !(old(self).mode is Idle),
        ensures
            final(self).mode is Playing,
            final(self).first_transit_frames == old(self).first_transit_frames,
            pos == if skip_silence && old(self).first_transit_frames > seek_frames {
                old(self).first_transit_frames
            } else {
                seek_frames
            },
    {
        self.mode = PlayerMode::Playing;
        if skip_silence && self.first_transit_frames > seek_frames {
            self.first_transit_frames
        } else {
            seek_frames
        }
    }

    /// Pause: only a playing source changes state.
    pub fn pause(&mut self)
        ensures
            final(self).first_transit_frames == old(self).first_transit_frames,
            final(self).mode == if old(self).mode is Playing {
                PlayerMode::Paused
            } else {
                old(self).mode
            },
    {
        if let PlayerMode::Playing = self.mode {
            self.mode = PlayerMode::Paused;
        }
    }

    /// Stop: playback tears down but the loaded source remains.
    pub fn stop(&mut self)
        ensures
            final(self).first_transit_frames == old(self).first_transit_frames,
            final(self).mode == if old(self).mode is Idle {
                PlayerMode::Idle
            } else {
                PlayerMode::Loaded
            },
    {
        if let PlayerMode::Idle = self.mode {
        } else {
            self.mode = PlayerMode::Loaded;
        }
    }

    /// The polling worker saw the source end: same transition as a stop,
    /// but only from the playing state.
    pub fn source_ended(&mut self)
        ensures
            final(self).first_transit_frames == old(self).first_transit_frames,
            final(self).mode == if old(self).mode is Playing {
                PlayerMode::Loaded
            } else {
                old(self).mode
            },
    {
        if let PlayerMode::Playing = self.mode {
            self.mode = PlayerMode::Loaded;
        }
    }
}

} // verus!
