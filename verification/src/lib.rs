//! Bit-level packing of J1939 messages, the message frame and the rules that
//! check a message layout before code for it is generated.

pub mod bitfield;
pub mod codegen;
pub mod docs;
pub mod field_info;
pub mod fixed_point;
pub mod message;
pub mod parse;
pub mod text;
pub mod validate;
pub mod wide_field;

use vstd::prelude::*;

verus! {

/// Why a message could not be encoded or decoded.
#[derive(Debug, Clone, Copy, PartialEq, Eq, Structural)]
pub enum Error {
    /// The message carries another parameter group number.
    InvalidPgn,
    /// The message carries another length.
    InvalidLength,
    /// The buffer is too small for the data.
    BufferTooSmall,
}

} // verus!
