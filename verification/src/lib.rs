//! A client-side JSON-RPC 2.0 engine.
//!
//! The crate models the frontend/backend split of a multiplexing client:
//! callers submit method calls, notifications, batches and subscriptions;
//! a background multiplexer owns the transport, correlates replies to
//! outstanding calls by request ID, and propagates fatal failures to every
//! waiter. The multiplexer itself is a pure state machine: it consumes
//! commands and inbound frames and emits the actions (frames to write,
//! replies to deliver) that an I/O loop around it must perform.

pub mod client;
pub mod error;
pub mod ids;
pub mod json;
pub mod request;
pub mod response;

use vstd::prelude::*;

verus! {

} // verus!
