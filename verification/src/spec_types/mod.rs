//! Transparent wrappers around the standard collections, whose contracts
//! state the collection behaviour over mathematical models.

pub mod spec_hashmap;
pub mod spec_vec;

pub use spec_hashmap::SpecHashMap;
pub use spec_vec::SpecVec;
