//! A verified codec for a binary key-value snapshot format.
//!
//! The snapshot file holds a fixed header (a magic token and a version
//! token) followed by a sequence of records terminated by an end-of-stream
//! opcode. Records carry key/value entries (optionally prefixed by an
//! expiry timestamp), database selectors, resize hints and auxiliary
//! metadata. Scalars use a compact variable-width encoding whose control
//! byte selects one of three length classes or a special integer class.
//!
//! The decoder and the encoder are pure transforms over byte buffers; both
//! are specified against one mathematical model of the format, and the
//! round-trip, truncation and header-rejection laws are proved in `laws`.

pub mod cmd;
pub mod encoding;
pub mod error;
pub mod laws;
pub mod scalar;
pub mod scanner;
pub mod snapshot;
