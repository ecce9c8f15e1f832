use audio_splitter::machine::RunState;
use audio_splitter::machine::SplitConfig;

fn cfg() -> SplitConfig {
    SplitConfig { min_silence_ms: 500, min_sound_ms: 500, chunk_ms: 20 }
}

#[test]
fn machine_starts_in_silence() {
    assert_eq!(RunState::new(), RunState { silence_run: 0, sound_run: 0, keep_silence: true });
}

#[test]
fn sound_has_to_outlast_the_minimum() {
    let mut s = RunState::new();
    for k in 1..=25u64 {
        assert!(!s.step(&cfg(), false));
        assert_eq!(s, RunState { silence_run: 0, sound_run: 20 * k, keep_silence: true });
    }
    assert!(!s.step(&cfg(), false));
    assert_eq!(s, RunState { silence_run: 0, sound_run: 520, keep_silence: false });
}

#[test]
fn silence_in_silence_closes_nothing() {
    let mut s = RunState::new();
    for k in 1..=100u64 {
        assert!(!s.step(&cfg(), true));
        assert_eq!(s, RunState { silence_run: 20 * k, sound_run: 0, keep_silence: true });
    }
}

#[test]
fn silence_after_sound_closes_once() {
    let mut s = RunState { silence_run: 0, sound_run: 520, keep_silence: false };
    for k in 1..=25u64 {
        assert!(!s.step(&cfg(), true));
        assert_eq!(s, RunState { silence_run: 20 * k, sound_run: 520, keep_silence: false });
    }
    assert!(s.step(&cfg(), true));
    assert_eq!(s, RunState { silence_run: 520, sound_run: 520, keep_silence: true });
    assert!(!s.step(&cfg(), true));
    assert_eq!(s, RunState { silence_run: 540, sound_run: 520, keep_silence: true });
}

#[test]
fn sound_run_is_never_reset() {
    let mut s = RunState { silence_run: 540, sound_run: 520, keep_silence: true };
    assert!(!s.step(&cfg(), false));
    assert_eq!(s, RunState { silence_run: 0, sound_run: 540, keep_silence: false });
}

#[test]
fn short_sound_leaves_the_silence_run_alone() {
    let mut s = RunState { silence_run: 60, sound_run: 0, keep_silence: true };
    assert!(!s.step(&cfg(), false));
    assert_eq!(s, RunState { silence_run: 60, sound_run: 20, keep_silence: true });
}

#[test]
fn runs_equal_to_the_minimum_do_not_count() {
    let c = SplitConfig { min_silence_ms: 40, min_sound_ms: 40, chunk_ms: 20 };
    let mut s = RunState::new();
    s.step(&c, false);
    s.step(&c, false);
    assert_eq!(s, RunState { silence_run: 0, sound_run: 40, keep_silence: true });
    s.step(&c, false);
    assert_eq!(s, RunState { silence_run: 0, sound_run: 60, keep_silence: false });
    assert!(!s.step(&c, true));
    assert!(!s.step(&c, true));
    assert!(s.step(&c, true));
}

#[test]
fn runs_stop_at_the_largest_value() {
    let c = SplitConfig { min_silence_ms: 10, min_sound_ms: 10, chunk_ms: u64::MAX - 1 };
    let mut s = RunState::new();
    assert!(!s.step(&c, false));
    assert_eq!(s, RunState { silence_run: 0, sound_run: u64::MAX - 1, keep_silence: false });
    assert!(!s.step(&c, false));
    assert_eq!(s, RunState { silence_run: 0, sound_run: u64::MAX, keep_silence: false });
    assert!(s.step(&c, true));
    assert!(!s.step(&c, true));
    assert_eq!(s, RunState { silence_run: u64::MAX, sound_run: u64::MAX, keep_silence: true });
}

#[test]
fn zero_chunk_never_leaves_silence() {
    let c = SplitConfig { min_silence_ms: 0, min_sound_ms: 0, chunk_ms: 0 };
    let mut s = RunState::new();
    for _ in 0..10 {
        assert!(!s.step(&c, false));
        assert!(!s.step(&c, true));
    }
    assert_eq!(s, RunState::new());
}
