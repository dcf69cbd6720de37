//! A small document store: JSON documents kept by string identifier in an
//! append-only record log, with an offset index that points at the latest
//! record of each identifier.

pub mod codec;
pub mod document;
pub mod engine;
pub mod error;
pub mod http;
pub mod index;
pub mod json;
pub mod laws;
pub mod log;
