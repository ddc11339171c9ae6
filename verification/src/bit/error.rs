//! Error types for bit-level operations.

use vstd::prelude::*;

use crate::text::{decimal, push_decimal, push_str};

verus! {

/// Errors that can occur during bit-level read/write operations.
#[derive(Debug, Clone, PartialEq, Eq)]
pub enum BitError {
    /// Attempted to read more bits than are available in the buffer.
    UnexpectedEof {
        /// Current bit position when the error occurred.
        position: usize,
        /// Number of bits that were requested.
        requested: usize,
        /// Number of bits actually remaining.
        remaining: usize,
    },
    /// Value does not fit in the specified number of bits.
    ValueOverflow {
        /// The value that was too large.
        value: u128,
        /// The number of bits available to hold the value.
        bits: u32,
    },
    /// Requested bit count exceeds the maximum allowed for the operation.
    InvalidBitCount {
        /// The requested bit count.
        bits: u32,
        /// The maximum allowed for this operation.
        max: u32,
    },
}

impl BitError {
    /// The human-readable description of the error.
    pub open spec fn message(&self) -> Seq<char> {
        match *self {
            BitError::UnexpectedEof { position, requested, remaining } => "unexpected end of data at bit "@
                + decimal(position as nat) + ": requested "@ + decimal(requested as nat)
                + " bits, "@ + decimal(remaining as nat) + " remaining"@,
            BitError::ValueOverflow { value, bits } => "value "@ + decimal(value as nat)
                + " does not fit in "@ + decimal(bits as nat) + " bits"@,
            BitError::InvalidBitCount { bits, max } => "bit count "@ + decimal(bits as nat)
                + " exceeds maximum of "@ + decimal(max as nat),
        }
    }

    /// Renders the error as text.
    pub fn to_string(&self) -> (r: String)
        ensures
            r@ == self.message(),
    {
        let mut s = String::new();
        match self {
            BitError::UnexpectedEof { position, requested, remaining } => {
                push_str(&mut s, "unexpected end of data at bit ");
                push_decimal(&mut s, *position as u128);
                push_str(&mut s, ": requested ");
                push_decimal(&mut s, *requested as u128);
                push_str(&mut s, " bits, ");
                push_decimal(&mut s, *remaining as u128);
                push_str(&mut s, " remaining");
            },
            BitError::ValueOverflow { value, bits } => {
                push_str(&mut s, "value ");
                push_decimal(&mut s, *value);
                push_str(&mut s, " does not fit in ");
                push_decimal(&mut s, *bits as u128);
                push_str(&mut s, " bits");
            },
            BitError::InvalidBitCount { bits, max } => {
                push_str(&mut s, "bit count ");
                push_decimal(&mut s, *bits as u128);
                push_str(&mut s, " exceeds maximum of ");
                push_decimal(&mut s, *max as u128);
            },
        }
        s
    }
}

/// Convenience alias for results of bit operations.
pub type BitResult<T> = Result<T, BitError>;

} // verus!
