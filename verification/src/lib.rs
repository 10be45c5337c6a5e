pub mod adapters;
pub mod canonical;
pub mod consumer;
pub mod csv;
mod digest;
pub mod envelope;
pub mod error;
pub mod frames;
mod grammar;
pub mod ir;
pub mod language;
pub mod manifest;
mod text;

pub use error::IngestError;
