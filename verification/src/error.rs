//! Error taxonomy for configuration loading and for the hostcall boundary.

use vstd::prelude::*;

verus! {

/// A configuration-time failure while activating a geolocation data mapping.
/// Every variant aborts activation of the affected mapping; none is deferred
/// to request time except the unavoidable re-read of a file-backed mapping.
#[derive(Clone, Copy, Debug, PartialEq, Eq, Structural)]
pub enum GeoIPConfigError {
    /// The mapping fragment has no `format` discriminator field.
    MissingFormat,
    /// The `format` field is present but is not a string.
    InvalidFormatEntry,
    /// The `format` field is the empty string.
    EmptyFormatEntry,
    /// The `format` field names no known mapping variant.
    InvalidGeoIPMappingFormat,
    /// An inline mapping has no `addresses` sub-field.
    MissingAddresses,
    /// The `addresses` sub-field is not a table.
    InvalidAddressesType,
    /// An entry's value is not a flat record of scalar fields.
    InvalidInlineEntryType,
    /// An entry's key does not parse as an IPv4 or IPv6 address.
    InvalidAddressEntry,
    /// A file-backed mapping has no `file` field.
    MissingFile,
    /// The `file` field is the empty string.
    EmptyFileEntry,
    /// The `file` field is present but is not a string.
    InvalidFileEntry,
    /// The backing file is not a single JSON object of records.
    GeoIPFileWrongFormat,
    /// The backing file could not be read.
    IoError,
}

/// A configuration error wrapped with the name of the offending section.
#[derive(Clone, Debug)]
pub enum FastlyConfigError {
    InvalidGeoIPDefinition { name: String, err: GeoIPConfigError },
}

/// An error crossing the hostcall boundary. Structured: the guest decides how
/// to surface it; it never aborts the host.
#[derive(Clone, Debug)]
pub enum Error {
    /// The input buffer descriptor had an unsupported shape.
    InvalidArgument,
    /// The output buffer's declared capacity was too small for the data;
    /// the fields identify which buffer and which limit.
    BufferLengthError { buf: &'static str, len: &'static str },
    /// A guest buffer descriptor named a region outside guest memory.
    OutOfBounds,
    /// No geolocation data was found for the decoded address.
    Geolocation(crate::geo_impl::GeolocationError),
    /// The mapping's backing resource failed at call time.
    GeoIPConfig(GeoIPConfigError),
}

} // verus!
