use vstd::prelude::*;
use crate::machine::capped;
use crate::machine::RunState;
use crate::machine::SplitConfig;
use crate::stream::runs_after;

verus! {

/// The boundary machine with runs that grow without end.
pub struct IdealRuns {
    pub silence_run: nat,
    pub sound_run: nat,
    pub keep_silence: bool,
}

impl IdealRuns {
    pub open spec fn initial() -> IdealRuns {
        IdealRuns { silence_run: 0, sound_run: 0, keep_silence: true }
    }

    /// Whether a block classified as `silent` closes the open segment.
    pub open spec fn closes(self, cfg: SplitConfig, silent: bool) -> bool {
        silent && !self.keep_silence && self.silence_run + cfg.chunk_ms > cfg.min_silence_ms
    }

    /// The state after a block classified as `silent`.
    pub open spec fn next(self, cfg: SplitConfig, silent: bool) -> IdealRuns {
        if silent {
            let run = self.silence_run + cfg.chunk_ms as nat;
            IdealRuns {
                silence_run: run,
                sound_run: self.sound_run,
                keep_silence: self.keep_silence || run > cfg.min_silence_ms,
            }
        } else {
            let run = self.sound_run + cfg.chunk_ms as nat;
            if run > cfg.min_sound_ms {
                IdealRuns { silence_run: 0, sound_run: run, keep_silence: false }
            } else {
                IdealRuns {
                    silence_run: self.silence_run,
                    sound_run: run,
                    keep_silence: self.keep_silence,
                }
            }
        }
    }

    /// The state as sixty-four bits hold it.
    pub open spec fn stored(self) -> RunState {
        RunState {
            silence_run: capped(self.silence_run as int),
            sound_run: capped(self.sound_run as int),
            keep_silence: self.keep_silence,
        }
    }
}

/// The ideal machine after blocks classified as `classes`.
pub open spec fn ideal_after(cfg: SplitConfig, classes: Seq<bool>) -> IdealRuns
    decreases classes.len(),
{
    if classes.len() == 0 {
        IdealRuns::initial()
    } else {
        ideal_after(cfg, classes.drop_last()).next(cfg, classes.last())
    }
}

/// Runs that stop at the largest sixty-four-bit value decide as runs that
/// grow without end, as long as both minimum durations lie under that
/// value: after any blocks the stored state is the ideal one cut off, and
/// the next block closes a segment in the one exactly when it does in the
/// other.
pub proof fn saturation_is_unobservable(cfg: SplitConfig, classes: Seq<bool>, silent: bool)
    requires
        cfg.min_silence_ms < u64::MAX,
        cfg.min_sound_ms < u64::MAX,
    ensures
        runs_after(cfg, classes) == ideal_after(cfg, classes).stored(),
        runs_after(cfg, classes).closes(cfg, silent) == ideal_after(cfg, classes).closes(
            cfg,
            silent,
        ),
    decreases classes.len(),
{
    if classes.len() > 0 {
        saturation_is_unobservable(cfg, classes.drop_last(), classes.last());
    }
}

} // verus!
