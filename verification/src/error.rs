//! The error taxonomy of the snapshot codec.

use vstd::prelude::*;

verus! {

/// Why a decode (or encode) pass over a snapshot buffer failed.
///
/// Every error is fatal to the current pass: the format has no
/// resynchronization markers, so nothing is retried or skipped.
#[derive(Debug, Clone, Copy, PartialEq, Eq, Structural)]
pub enum FormatError {
    /// The first five bytes are not the magic token.
    BadMagic,
    /// The magic token matched but the four version bytes did not.
    VersionMismatch,
    /// The buffer ended before the record or payload it promised.
    TruncatedFile,
    /// A string payload is not valid UTF-8.
    InvalidUtf8,
    /// A special-class control byte carries an unknown mode.
    UnsupportedEncoding,
    /// A special-class control byte announces a compressed string.
    UnsupportedCompression,
    /// A database selector other than index zero.
    UnsupportedFeature,
    /// A key/value entry whose value type tag is not the string tag.
    UnsupportedValueType,
}

} // verus!
