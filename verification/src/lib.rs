//! A length-budgeted binary codec.
//!
//! Values are written to a byte sink in a fixed, big-endian wire format with
//! no in-band length prefixes.  Decoding is driven by an externally supplied
//! byte budget that is threaded through every read and decremented as bytes
//! are consumed; variable-size values (sequences, buffers, text, bit sets)
//! greedily consume the entire remaining budget.

use vstd::prelude::*;

pub mod aggregate;
pub mod arrays;
pub mod be;
pub mod bits;
pub mod codec;
pub mod endpoint;
pub mod options;
pub mod scalars;
pub mod seqs;
pub mod stream;
pub mod text;

verus! {

/// An error raised while decoding a value from a byte source.
#[derive(Clone, Copy, Debug, PartialEq, Eq)]
pub enum DecodeError {
    /// The source yielded fewer bytes than the value required.
    TruncatedInput,
    /// The bytes read are not a valid encoding of the target type.
    InvalidEncoding,
    /// Decoding would have to consume more bytes than the budget allows.
    BudgetExhausted,
}

} // verus!
