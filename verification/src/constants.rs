//! Monetary and schedule constants of the Bitcoin consensus rules.

use vstd::prelude::*;

verus! {

/// Satoshis per bitcoin.
pub const C: u64 = 100_000_000;

/// Number of blocks between two subsidy halvings.
pub const H: u64 = 210_000;

/// Maximum money supply in satoshis (21 million bitcoin).
pub const M_MAX: i64 = 2_100_000_000_000_000;

} // verus!
