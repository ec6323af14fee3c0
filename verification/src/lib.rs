//! A serverless request handler with a verified graceful-shutdown protocol.
//!
//! The library holds the logic of a small function-hosting demo: the
//! invocation handler that answers each request with a JSON payload, the
//! codec for that payload, and the state machines that govern startup
//! registration and signal-driven shutdown. The surrounding process (the
//! host's event loop, signal delivery, logging) lives outside the library
//! and hands it plain values.

pub mod codec;
pub mod event;
pub mod handler;
pub mod lifecycle;
pub mod shutdown;
