use vstd::prelude::*;

verus! {

/// The three durations, in milliseconds, that steer segmentation.
#[derive(Clone, Copy, Debug, PartialEq, Eq, Structural)]
pub struct SplitConfig {
    /// A silence run has to last longer than this to close a segment.
    pub min_silence_ms: u64,
    /// Sound has to add up to more than this before the stream counts as sound.
    pub min_sound_ms: u64,
    /// Duration of one block.
    pub chunk_ms: u64,
}

/// The part of the segmentation state that decides boundaries.
///
/// `keep_silence` is true in the state called Silence and false in the one
/// called Sound. Both runs saturate at `u64::MAX`.
#[derive(Clone, Copy, Debug, PartialEq, Eq, Structural)]
pub struct RunState {
    pub silence_run: u64,
    pub sound_run: u64,
    pub keep_silence: bool,
}

/// Addition that stops at the largest `u64`.
pub open spec fn capped(sum: int) -> u64 {
    if sum > u64::MAX {
        u64::MAX
    } else {
        sum as u64
    }
}

impl RunState {
    /// The state before the first block: Silence, with both runs empty.
    pub open spec fn initial() -> RunState {
        RunState { silence_run: 0, sound_run: 0, keep_silence: true }
    }

    /// Whether a block classified as `silent` closes the open segment.
    pub open spec fn closes(self, cfg: SplitConfig, silent: bool) -> bool {
        silent && !self.keep_silence && capped(self.silence_run + cfg.chunk_ms)
            > cfg.min_silence_ms
    }

    /// The state after a block classified as `silent`.
    pub open spec fn next(self, cfg: SplitConfig, silent: bool) -> RunState {
        if silent {
            let run = capped(self.silence_run + cfg.chunk_ms);
            RunState {
                silence_run: run,
                sound_run: self.sound_run,
                keep_silence: self.keep_silence || run > cfg.min_silence_ms,
            }
        } else {
            let run = capped(self.sound_run + cfg.chunk_ms);
            if run > cfg.min_sound_ms {
                RunState { silence_run: 0, sound_run: run, keep_silence: false }
            } else {
                RunState { silence_run: self.silence_run, sound_run: run, keep_silence: self.keep_silence }
            }
        }
    }

    pub fn new() -> (state: RunState)
        ensures
            state == RunState::initial(),
    {
        RunState { silence_run: 0, sound_run: 0, keep_silence: true }
    }

    /// Takes one classified block into account and says whether the open
    /// segment ends with it.
    pub fn step(&mut self, cfg: &SplitConfig, silent: bool) -> (close: bool)
        ensures
            close == old(self).closes(*cfg, silent),
            *final(self) == old(self).next(*cfg, silent),
    {
        if silent {
            self.silence_run = self.silence_run.saturating_add(cfg.chunk_ms);
            if self.silence_run > cfg.min_silence_ms {
                let close: bool = !self.keep_silence;
                self.keep_silence = true;
                close
            } else {
                false
            }
        } else {
            self.sound_run = self.sound_run.saturating_add(cfg.chunk_ms);
            if self.sound_run > cfg.min_sound_ms {
                self.keep_silence = false;
                self.silence_run = 0;
            }
            false
        }
    }
}

} // verus!
