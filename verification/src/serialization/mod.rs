pub mod block;
pub mod bytes;
pub mod transaction;
pub mod varint;
pub mod tx_canonical;
pub mod layout;
