use vstd::prelude::*;
use crate::error::SplitError;
use crate::format::TARGET_RATE;

verus! {

/// Window laid over the sinc kernel.
#[derive(Clone, Copy, Debug, PartialEq, Eq, Structural)]
pub enum Window {
    Blackman,
    Blackman2,
    BlackmanHarris,
    BlackmanHarris2,
    Hann,
    Hann2,
}

/// How values between two kernel taps are found.
#[derive(Clone, Copy, Debug, PartialEq, Eq, Structural)]
pub enum Interpolation {
    Nearest,
    Linear,
    Cubic,
}

/// The parameters of the windowed-sinc resampler.
#[derive(Clone, Copy, Debug, PartialEq, Eq, Structural)]
pub struct ResamplerSettings {
    /// Length of the sinc kernel, in taps.
    pub sinc_len: usize,
    /// Cutoff frequency, in hundredths of the Nyquist frequency.
    pub cutoff_percent: u8,
    /// Number of intermediate points between two input samples.
    pub oversampling_factor: usize,
    pub window: Window,
    pub interpolation: Interpolation,
}

impl ResamplerSettings {
    /// The settings used for segments: a long kernel with the cutoff close
    /// under Nyquist, for quality rather than speed.
    pub open spec fn quality_spec() -> ResamplerSettings {
        ResamplerSettings {
            sinc_len: 256,
            cutoff_percent: 95,
            oversampling_factor: 256,
            window: Window::BlackmanHarris2,
            interpolation: Interpolation::Linear,
        }
    }

    pub fn quality() -> (settings: ResamplerSettings)
        ensures
            settings == ResamplerSettings::quality_spec(),
    {
        ResamplerSettings {
            sinc_len: 256,
            cutoff_percent: 95,
            oversampling_factor: 256,
            window: Window::BlackmanHarris2,
            interpolation: Interpolation::Linear,
        }
    }

    /// Length of the kernel as it is laid out: the next multiple of eight.
    pub open spec fn kernel_len(self) -> int {
        (self.sinc_len + 7) / 8 * 8
    }

    /// Fewest frames a channel must hold to be resampled from
    /// `source_rate`: the half of the kernel that looks ahead, one step of
    /// the output clock rounded up to whole input frames, and two frames
    /// more.
    pub open spec fn min_frames(self, source_rate: u32) -> int {
        self.kernel_len() / 2 + (source_rate + TARGET_RATE - 1) / (TARGET_RATE as int) + 2
    }
}

/// Whether all channels hold the same number of frames.
pub open spec fn even_channels<T>(channels: Seq<Vec<T>>) -> bool {
    forall|c: int| 0 <= c < channels.len() ==> (#[trigger] channels[c])@.len() == channels[0]@.len()
}

/// Whether de-interleaved channels can be resampled: there is a channel,
/// the source rate is not zero, all channels are of one length, and that
/// length reaches the minimum.
pub open spec fn resamplable<T>(
    channels: Seq<Vec<T>>,
    settings: ResamplerSettings,
    source_rate: u32,
) -> bool {
    &&& channels.len() > 0
    &&& source_rate > 0
    &&& even_channels(channels)
    &&& channels[0]@.len() >= settings.min_frames(source_rate)
}

/// Checks a segment's channels before they go to the resampler and gives
/// the number of frames in each. A segment that cannot be resampled is
/// one to skip, not a reason to stop.
pub fn frames_to_resample<T>(
    channels: &Vec<Vec<T>>,
    settings: &ResamplerSettings,
    source_rate: u32,
) -> (frames: Result<usize, SplitError>)
    ensures
        match frames {
            Ok(n) => resamplable(channels@, *settings, source_rate) && n == channels@[0]@.len(),
            Err(e) => e == SplitError::InsufficientSamples && !resamplable(
                channels@,
                *settings,
                source_rate,
            ),
        },
{
    if channels.len() == 0 || source_rate == 0 {
        return Err(SplitError::InsufficientSamples);
    }
    let frames: usize = channels[0].len();
    let mut c: usize = 1;
    while c < channels.len()
        invariant
            1 <= c <= channels@.len(),
            frames == channels@[0]@.len(),
            forall|d: int| 0 <= d < c ==> (#[trigger] channels@[d])@.len() == frames,
        decreases channels.len() - c,
    {
        if channels[c].len() != frames {
            return Err(SplitError::InsufficientSamples);
        }
        c += 1;
    }
    let ahead: u128 = (settings.sinc_len as u128 + 7) / 8 * 8 / 2;
    let step: u128 = ((source_rate as u64 + TARGET_RATE as u64 - 1) / (TARGET_RATE as u64)) as u128;
    let least: u128 = ahead + step + 2;
    if (frames as u128) < least {
        Err(SplitError::InsufficientSamples)
    } else {
        Ok(frames)
    }
}

/// The value of the signed 16-bit range nearest to `value`.
pub open spec fn clamped_16(value: int) -> int {
    if value < -32768 {
        -32768
    } else if value > 32767 {
        32767
    } else {
        value
    }
}

/// Narrows a scaled sample to 16 bits. Peaks beyond the range stop at its
/// ends instead of wrapping round.
pub fn clamp_to_i16(value: i64) -> (out: i16)
    ensures
        out == clamped_16(value as int),
{
    if value < -32768 {
        -32768
    } else if value > 32767 {
        32767
    } else {
        value as i16
    }
}

/// Narrows a run of scaled samples to 16 bits, one by one.
pub fn to_pcm16(scaled: &[i64]) -> (out: Vec<i16>)
    ensures
        out@.len() == scaled@.len(),
        forall|i: int| 0 <= i < out@.len() ==> #[trigger] out@[i] == clamped_16(scaled@[i] as int),
{
    let mut out: Vec<i16> = Vec::new();
    let mut i: usize = 0;
    while i < scaled.len()
        invariant
            i <= scaled@.len(),
            out@.len() == i,
            forall|j: int| 0 <= j < i ==> #[trigger] out@[j] == clamped_16(scaled@[j] as int),
        decreases scaled.len() - i,
    {
        out.push(clamp_to_i16(scaled[i]));
        i += 1;
    }
    out
}

} // verus!
