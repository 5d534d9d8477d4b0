//! Terminal failures of the decode-and-analyze pipeline.

use vstd::prelude::*;

verus! {

/// A terminal failure surfaced to the caller of the pipeline.
///
/// A packet that merely fails to decode is not listed here: it is
/// skipped and the stream continues (see `decode::classify_packet`).
#[derive(Clone, Copy, Debug, PartialEq, Eq, Structural)]
pub enum AudioError {
    /// The byte source could not be probed to any known container.
    UnsupportedFormat,
    /// No track in the container has a matching codec.
    NoCompatibleTrack,
    /// A decoded block is not in 32-bit float sample format.
    UnsupportedSampleFormat,
    /// The resolution/sample-rate combination yields a degenerate
    /// analysis window, or the source holds no samples.
    InvalidWindowSize,
    /// The underlying byte source could not be read or opened.
    IoFailure,
}

impl AudioError {
    /// A short description of the failure.
    pub fn message(&self) -> (r: &'static str)
        ensures
            r@ == self.message_spec(),
    {
        match self {
            AudioError::UnsupportedFormat => "unsupported format",
            AudioError::NoCompatibleTrack => "no compatible track found",
            AudioError::UnsupportedSampleFormat => "only f32 sample format is supported",
            AudioError::InvalidWindowSize => "invalid analysis window size",
            AudioError::IoFailure => "failed to read the media source",
        }
    }

    /// The description promised by `message`.
    pub open spec fn message_spec(self) -> Seq<char> {
        match self {
            AudioError::UnsupportedFormat => "unsupported format"@,
            AudioError::NoCompatibleTrack => "no compatible track found"@,
            AudioError::UnsupportedSampleFormat => "only f32 sample format is supported"@,
            AudioError::InvalidWindowSize => "invalid analysis window size"@,
            AudioError::IoFailure => "failed to read the media source"@,
        }
    }
}

} // verus!
