//! Errors that the library reports.
use vstd::prelude::*;

verus! {

/// Errors that the library reports.
#[derive(Debug)]
pub enum Error {
    /// No CMSIS-DAP v2 probe was found.
    DeviceNotFound,
    /// The probe answered with a response that does not have the expected shape.
    InvalidResponse(String),
    /// A DAP_Transfer did not complete: status byte, number of completed requests.
    TransferFailed(u8, u8),
    /// A step of the SWD bring-up failed.
    Swd(String),
    /// An operation timed out.
    Timeout,
    /// Any other failure.
    Other(String),
    /// A worker thread of the acquisition pipeline could not be started.
    PipelineThread(String),
}

} // verus!
