//! Errors reported by the wire-format decoders.

use crate::serialization::block::BlockParseError;
use crate::serialization::transaction::TransactionParseError;
use crate::serialization::varint::VarIntError;
use vstd::prelude::*;

verus! {

/// Why decoding wire-format bytes failed.
#[derive(Debug, Clone, Copy, PartialEq, Eq, Structural)]
pub enum SerializationError {
    /// A variable-length integer could not be decoded.
    VarInt(VarIntError),
    /// A transaction could not be decoded.
    Transaction(TransactionParseError),
    /// A block could not be decoded.
    Block(BlockParseError),
    /// The optional-features flag after an empty input vector was neither 0 nor 1.
    UnsupportedSegwitFlag(u8),
}

/// The decimal digit `d`.
pub open spec fn digit_char(d: nat) -> char {
    (48 + d) as char
}

/// The decimal representation of `n`, without leading zeros.
pub open spec fn decimal(n: nat) -> Seq<char>
    decreases n,
{
    if n < 10 {
        seq![digit_char(n)]
    } else {
        decimal(n / 10) + seq![digit_char(n % 10)]
    }
}

/// The text reported for an unsupported segwit flag.
pub open spec fn segwit_flag_text(flag: u8) -> Seq<char> {
    "Unsupported segwit transaction flag: "@ + decimal(flag as nat)
}

/// Formats the report for an unsupported segwit flag with std's `format!`.
/// Trusted: `format!` writes the fixed text followed by the flag in decimal
/// (`Display` for `u8`).
#[verifier::external_body]
fn format_segwit_flag(flag: u8) -> (s: String)
    ensures
        s@ == segwit_flag_text(flag),
{
    format!("Unsupported segwit transaction flag: {flag}")
}

impl SerializationError {
    /// The human-readable text of this error.
    pub open spec fn spec_message(&self) -> Seq<char> {
        match self {
            SerializationError::VarInt(e) => e.spec_message(),
            SerializationError::Transaction(e) => e.spec_message(),
            SerializationError::Block(e) => e.spec_message(),
            SerializationError::UnsupportedSegwitFlag(flag) => segwit_flag_text(*flag),
        }
    }

    /// Returns the human-readable text of this error.
    pub fn message(&self) -> (s: String)
        ensures
            s@ == self.spec_message(),
    {
        match self {
            SerializationError::VarInt(e) => e.message(),
            SerializationError::Transaction(e) => e.message(),
            SerializationError::Block(e) => e.message(),
            SerializationError::UnsupportedSegwitFlag(flag) => format_segwit_flag(*flag),
        }
    }
}

} // verus!
