//! A small URL shortener: identifiers are encoded in base 62 and kept in a
//! store that maps each original URL to exactly one alias.
pub mod codec;
pub mod store;
pub mod service;
