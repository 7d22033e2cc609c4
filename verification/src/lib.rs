//! A verified protocol engine for a small length-prefixed key-value wire
//! protocol: a framing decoder, a command dispatcher over a byte-keyed
//! store, and a response encoder.

pub mod bytes;
pub mod command;
pub mod decoder;
pub mod dispatch;
pub mod encoder;
pub mod laws;
pub mod response;
pub mod store;
