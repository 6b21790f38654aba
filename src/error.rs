//! The error kinds of the audio side of the engine.
use vstd::prelude::*;

verus! {

/// Why an audio file could not be turned into waveform points.
#[derive(Clone, Copy, Debug, PartialEq, Eq, Structural)]
pub enum AudioError {
    /// No file exists at the given path.
    NotFound,
    /// The file is a container or encoding this decoder does not handle.
    UnsupportedFormat,
    /// A header or chunk is cut short or malformed.
    Corrupt,
    /// The file system refused the read.
    Io,
    /// A caller-supplied argument is out of range (a target of zero points).
    InvalidArgument,
}

} // verus!
