//! Error kinds surfaced by the library. Transport and protocol errors are
//! fatal for the refresh loop; capture errors are transient; config errors
//! leave the previous run mode in place.

use vstd::prelude::*;

verus! {

#[derive(Clone, Copy, Debug, PartialEq, Eq, Structural)]
pub enum Error {
    /// An I/O request to the device failed in the transport backend.
    Transport,
    /// The INQUIRY response did not carry the expected vendor/product id.
    UnexpectedDevice,
    /// The device reported a mode generation the library does not know.
    UnsupportedGeneration,
    /// The requested display mode does not exist on this device generation.
    UnsupportedMode,
    /// A data transfer longer than the command's 16-bit length field allows.
    TransferTooLong,
    /// A waveform table image contained a reserved 2-bit lane value.
    InvalidWaveform,
    /// The capture source had no frame ready; retry after a short sleep.
    FrameNotReady,
    /// The capture source's frame size does not match the panel canvas.
    SourceSizeMismatch,
}

impl Error {
    /// Whether the refresh loop should treat the error as transient and
    /// retry instead of terminating.
    pub fn is_transient(&self) -> (r: bool)
        ensures
            r == (*self == Error::FrameNotReady),
    {
        match self {
            Error::FrameNotReady => true,
            _ => false,
        }
    }
}

} // verus!
