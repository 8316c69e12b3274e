//! Client-side core for a local-network smart-lighting HTTP/JSON control API.
//!
//! The crate is organised bottom-up: `text` holds character-level helpers for
//! the wire text, `models` the typed wire entities, `codec` the JSON
//! encoders/decoders for those entities, `error` the failure taxonomy, and
//! `client` the request builders and response deciders that a transport layer
//! drives.

pub mod client;
pub mod codec;
pub mod error;
pub mod models;
pub mod text;
