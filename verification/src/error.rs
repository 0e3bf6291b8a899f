//! The errors of decoding and of resolving references, and the way in which
//! the outcome of a decoding step is stated.

use vstd::prelude::*;

verus! {

/// Why a descriptor could not be decoded, or a reference in it not resolved.
#[derive(Debug, Clone, Copy, PartialEq, Eq, Structural)]
pub enum DecodeError {
    /// A read that started at `offset` needed more bytes than remain.
    Truncated { offset: usize },
    /// The byte `tag` at `offset`, which was to open the symbol-table entry
    /// `index`, is no recognised entry tag.
    UnknownTag { tag: u8, index: u16, offset: usize },
    /// The descriptor ended `remaining` bytes before the end of the buffer.
    TrailingData { remaining: usize },
    /// The parent index is zero and the caller asked for a parent.
    MissingParent,
    /// Slot `index` is out of range, a placeholder, or holds an entry of the
    /// wrong kind.
    MalformedReference { index: u16 },
    /// The class-file parser does not accept the buffer, or cannot be shown
    /// it, and the decoder of this library finds nothing wrong with it.
    Rejected,
}

impl DecodeError {
    /// Where a cursor stands once a decoding step has failed with this error:
    /// a failed read consumes nothing, an unknown tag has been consumed. No
    /// step fails with another error, and for those the value says nothing.
    pub open spec fn stop(self) -> int {
        match self {
            DecodeError::Truncated { offset } => offset as int,
            DecodeError::UnknownTag { offset, .. } => offset + 1,
            _ => 0,
        }
    }
}

/// The error of a read at `pos` that ran out of bytes.
pub open spec fn truncated_at(pos: int) -> DecodeError {
    DecodeError::Truncated { offset: pos as usize }
}

/// `r` and the cursor position `end` are what the step `expected` prescribes:
/// its value and next position, or its error and the place where it stopped.
pub open spec fn step_outcome<T>(
    r: Result<T, DecodeError>,
    end: int,
    expected: Result<(T, int), DecodeError>,
) -> bool {
    match expected {
        Ok((v, p)) => r == Ok::<T, DecodeError>(v) && end == p,
        Err(e) => r == Err::<T, DecodeError>(e) && end == e.stop(),
    }
}

/// As `step_outcome`, for a value that is known by its view.
pub open spec fn viewed_outcome<T: View>(
    r: Result<T, DecodeError>,
    end: int,
    expected: Result<(T::V, int), DecodeError>,
) -> bool {
    match expected {
        Ok((v, p)) => r is Ok && r->Ok_0@ == v && end == p,
        Err(e) => r == Err::<T, DecodeError>(e) && end == e.stop(),
    }
}

} // verus!
