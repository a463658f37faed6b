//! Client-side core of a stream-oriented sample store: response decoding,
//! connection pooling, command building and checksummed bulk upload framing.

pub mod command;
pub mod endian;
pub mod error;
pub mod frame;
pub mod pack;
pub mod pipeline;
pub mod socket;
pub mod stream;
pub mod utils;
