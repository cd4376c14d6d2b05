//! Geolocation hostcall error type and its ABI status representation.

use vstd::prelude::*;

verus! {

/// The fixed status code enumeration crossing the hostcall boundary.
/// "No data found" (`NoData`) is always distinguishable from an error.
#[derive(Clone, Copy, Debug, PartialEq, Eq, Structural)]
pub enum FastlyStatus {
    Success,
    NoData,
    InvalidArgument,
    BufferLen,
    Unsupported,
}

/// A failure of the geolocation hostcall itself.
#[derive(Clone, Debug)]
pub enum GeolocationError {
    /// Geolocation data for the given address (textual form) was not found.
    NoGeolocationData(String),
}

impl GeolocationError {
    /// Convert to an error code representation suitable for passing across
    /// the ABI boundary: absence of data is the `NoData` status, not a fault.
    pub fn to_fastly_status(&self) -> (r: FastlyStatus)
        ensures
            r == FastlyStatus::NoData,
    {
        match self {
            GeolocationError::NoGeolocationData(_) => FastlyStatus::NoData,
        }
    }
}

} // verus!
