//! A small, verified core for an HTTP event service.
//!
//! The library computes everything the service decides: the greeting for the
//! identity endpoint, the positional decoding of database rows into events,
//! the JSON encoding of the event list, the single internal-error response,
//! and the validation of the startup configuration. The surrounding process
//! (HTTP listener, connection pool, cookie middleware) lives outside the
//! library and hands it plain values.

pub mod config;
pub mod event;
pub mod json;
pub mod service;
