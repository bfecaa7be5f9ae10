//! Foundational Bitcoin types, wire-format serialization and configuration,
//! with their behaviour stated as contracts and proved.

pub mod config;
pub mod constants;
pub mod debug_form;
pub mod error;
pub mod orange_paper_helpers;
pub mod serialization;
pub mod spec_types;
pub mod types;

pub use error::SerializationError;
pub use spec_types::{SpecHashMap, SpecVec};
