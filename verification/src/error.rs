use vstd::prelude::*;

verus! {

/// Everything that can go wrong while a recording is split.
#[derive(Clone, Copy, Debug, PartialEq, Eq, Structural)]
pub enum SplitError {
    /// The stream declares a bit depth and sample format that is not decoded.
    UnsupportedFormat,
    /// The stream is malformed and cannot be read any further.
    DecodeError,
    /// A segment holds too few frames for the resampler to work on.
    InsufficientSamples,
    /// A segment could not be stored.
    WriteFailure,
}

impl SplitError {
    /// Stream-level errors end the whole run; the others concern one
    /// segment only and leave its siblings untouched.
    pub open spec fn stream_level(self) -> bool {
        self == SplitError::UnsupportedFormat || self == SplitError::DecodeError
    }

    /// Whether the run has to stop on this error.
    pub fn is_fatal(&self) -> (fatal: bool)
        ensures
            fatal == self.stream_level(),
    {
        match self {
            SplitError::UnsupportedFormat => true,
            SplitError::DecodeError => true,
            SplitError::InsufficientSamples => false,
            SplitError::WriteFailure => false,
        }
    }
}

/// The exit status a run owes its caller, given the errors it met: zero
/// unless one of them was stream-level.
pub open spec fn exit_status_of(errors: Seq<SplitError>) -> int {
    if exists|i: int| 0 <= i < errors.len() && (#[trigger] errors[i]).stream_level() {
        1
    } else {
        0
    }
}

/// Computes the exit status for the errors collected during a run.
pub fn exit_status(errors: &Vec<SplitError>) -> (status: i32)
    ensures
        status == exit_status_of(errors@),
{
    let mut i: usize = 0;
    while i < errors.len()
        invariant
            i <= errors.len(),
            forall|j: int| 0 <= j < i ==> !(#[trigger] errors@[j]).stream_level(),
        decreases errors.len() - i,
    {
        if errors[i].is_fatal() {
            return 1;
        }
        i += 1;
    }
    0
}

} // verus!
