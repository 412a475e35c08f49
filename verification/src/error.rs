//! Why a run of bytes could not be decoded.

use vstd::prelude::*;

verus! {

/// A protocol-level decoding failure. None of them is recoverable within the
/// message that was being read.
#[derive(Clone, Copy, Debug, PartialEq, Eq, Structural)]
pub enum DecodeError {
    /// The input ends before the value does.
    Truncated,
    /// A type tag that no type has, or a value asked of the stop tag.
    BadType,
    /// A variable-length integer that runs on for too many bytes or does
    /// not fit the width it is read for.
    BadVarint,
    /// A negative length or element count.
    BadSize,
    /// A boolean byte that is neither true nor false.
    BadBool,
    /// A string that is not UTF-8.
    InvalidUtf8,
    /// A message header of another protocol or version.
    BadVersion,
    /// A message kind that is none of call, reply, exception and one-way.
    BadMessageKind,
    /// A field id that leaves the 16-bit range.
    BadFieldId,
}

} // verus!
