//! A client-side transfer session engine: header framing and parsing, a
//! case-insensitive header field model, a byte-safe text codec, a bounded
//! pool of transport handles, a cookie jar and the callback state machine
//! that turns transport callbacks into ordered session events.

pub mod text;
pub mod escape;
pub mod fields;
pub mod error;
pub mod message;
pub mod connect;
pub mod session;
pub mod pool;
pub mod cookie;
pub mod client;
