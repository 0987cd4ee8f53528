//! Content ingestion and validation for a kholle archive: parsing of proof
//! documents (front matter plus markdown body) and week descriptor files,
//! loading them into id-keyed maps, and resolving week-to-proof references.

pub mod date;
pub mod error;
pub mod load;
pub mod markdown;
pub mod resolve;
pub mod sort;
pub mod text;
pub mod types;
