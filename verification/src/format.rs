use vstd::prelude::*;
use crate::error::SplitError;

verus! {

/// The rate every segment is resampled to, in hertz.
pub const TARGET_RATE: u32 = 16000;

/// Bit depth of the resampled output.
pub const TARGET_BITS: u16 = 16;

/// Largest magnitude of a 16-bit sample.
pub const FULL_SCALE_16: i32 = 32767;

/// Largest magnitude of a 24-bit sample.
pub const FULL_SCALE_24: i32 = 8388607;

/// How a container stores each sample.
#[derive(Clone, Copy, Debug, PartialEq, Eq, Structural)]
pub enum SampleFormat {
    Int,
    Float,
}

/// What the header of a PCM container declares about its stream.
#[derive(Clone, Copy, Debug, PartialEq, Eq, Structural)]
pub struct StreamFormat {
    pub channels: u16,
    pub sample_rate: u32,
    pub bits_per_sample: u16,
    pub sample_format: SampleFormat,
}

/// The numeric representations that can be decoded.
#[derive(Clone, Copy, Debug, PartialEq, Eq, Structural)]
pub enum SampleKind {
    Int16,
    Int24,
    Float32,
}

impl SampleKind {
    /// The representation that goes with a sample format and a bit depth,
    /// if there is one.
    pub open spec fn of(sample_format: SampleFormat, bits_per_sample: u16) -> Option<SampleKind> {
        match sample_format {
            SampleFormat::Int => if bits_per_sample == 16 {
                Some(SampleKind::Int16)
            } else if bits_per_sample == 24 {
                Some(SampleKind::Int24)
            } else {
                None
            },
            SampleFormat::Float => if bits_per_sample == 32 {
                Some(SampleKind::Float32)
            } else {
                None
            },
        }
    }

    /// The magnitude that a raw sample is divided by to normalise it;
    /// float samples are taken as they are and have none.
    pub open spec fn full_scale_of(self) -> Option<int> {
        match self {
            SampleKind::Int16 => Some(32767),
            SampleKind::Int24 => Some(8388607),
            SampleKind::Float32 => None,
        }
    }

    pub fn full_scale(&self) -> (scale: Option<i32>)
        ensures
            match scale {
                Some(m) => self.full_scale_of() == Some(m as int),
                None => self.full_scale_of().is_none(),
            },
    {
        match self {
            SampleKind::Int16 => Some(FULL_SCALE_16),
            SampleKind::Int24 => Some(FULL_SCALE_24),
            SampleKind::Float32 => None,
        }
    }
}

impl StreamFormat {
    /// Number of samples in one block of `chunk_ms` milliseconds.
    pub open spec fn block_len_of(self, chunk_ms: u64) -> int {
        (self.sample_rate as int / 1000) * chunk_ms as int
    }

    /// Picks the representation to decode the stream with, once, when the
    /// stream is opened.
    pub fn sample_kind(&self) -> (kind: Result<SampleKind, SplitError>)
        ensures
            match kind {
                Ok(k) => SampleKind::of(self.sample_format, self.bits_per_sample) == Some(k),
                Err(e) => e == SplitError::UnsupportedFormat
                    && SampleKind::of(self.sample_format, self.bits_per_sample).is_none(),
            },
    {
        match self.sample_format {
            SampleFormat::Int => {
                if self.bits_per_sample == 16 {
                    Ok(SampleKind::Int16)
                } else if self.bits_per_sample == 24 {
                    Ok(SampleKind::Int24)
                } else {
                    Err(SplitError::UnsupportedFormat)
                }
            },
            SampleFormat::Float => {
                if self.bits_per_sample == 32 {
                    Ok(SampleKind::Float32)
                } else {
                    Err(SplitError::UnsupportedFormat)
                }
            },
        }
    }

    /// The block length in samples, or `None` where it does not fit the
    /// machine's index type.
    pub fn block_len(&self, chunk_ms: u64) -> (len: Option<usize>)
        ensures
            match len {
                Some(n) => n == self.block_len_of(chunk_ms),
                None => self.block_len_of(chunk_ms) > usize::MAX,
            },
    {
        let per_ms: u64 = (self.sample_rate / 1000) as u64;
        match per_ms.checked_mul(chunk_ms) {
            Some(n) => {
                if n <= usize::MAX as u64 {
                    Some(n as usize)
                } else {
                    None
                }
            },
            None => None,
        }
    }

    /// The format of a segment after resampling: the same channels at the
    /// target rate, as 16-bit integers.
    pub fn resampled(&self) -> (out: StreamFormat)
        ensures
            out.channels == self.channels,
            out.sample_rate == TARGET_RATE,
            out.bits_per_sample == TARGET_BITS,
            out.sample_format == SampleFormat::Int,
    {
        StreamFormat {
            channels: self.channels,
            sample_rate: TARGET_RATE,
            bits_per_sample: TARGET_BITS,
            sample_format: SampleFormat::Int,
        }
    }
}

} // verus!
