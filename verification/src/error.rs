//! Error definitions of the gt reader.
use vstd::prelude::*;

verus! {

/// Error returned by the conversion helpers of the reader.
#[derive(Debug, PartialEq, Eq)]
pub enum Error {
    MismatchedLength { expect: usize },
}

/// Alias of result.
pub type Result<T> = core::result::Result<T, Error>;

/// Why a byte stream is not a `gt` file that can be read.
///
/// Each variant names one way in which the input can be rejected.
#[derive(Debug, Clone, Copy, PartialEq, Eq, Structural)]
pub enum ParseError {
    /// A fixed-size field (flag, integer, length prefix) runs past the end of the input.
    UnexpectedEnd,
    /// The endianness flag is neither `0x00` nor `0x01`.
    InvalidEndianness(u8),
    /// The directed flag is neither `0x00` nor `0x01`.
    InvalidDirectedFlag(u8),
    /// A string is not valid UTF-8.
    InvalidUtf8,
    /// The key type of a property map is not graph (`0x00`), vertex (`0x01`) or edge (`0x02`).
    UnknownPropertyMapKind(u8),
    /// The value type is `long double` (`0x05`), `vector<long double>` (`0x0c`)
    /// or `python::object` (`0x0e`), which are not read.
    UnsupportedPropertyType(u8),
    /// The value type index is above `0x0e`.
    UnknownPropertyType(u8),
    /// A 64-bit count does not fit in a `usize`.
    SizeOverflow,
}

} // verus!
