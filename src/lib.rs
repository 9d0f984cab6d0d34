//! Response pipeline and pagination engine for a social-media REST API client.
//!
//! The library holds the logic of a client: rate-limit bookkeeping around every decoded
//! value, the state machine that drives one HTTP exchange and classifies its outcome, the
//! cursor that pages through time-ordered collections, the merge that weaves sent and
//! received direct messages into per-counterpart threads, and the parser that replays a
//! previously issued query URL. Network transport, JSON decoding and request signing are
//! performed by the caller, which hands the library plain values.

pub mod error;
pub mod headers;
pub mod response;
pub mod exchange;
pub mod params;
pub mod escape;
pub mod direct;
pub mod place;
