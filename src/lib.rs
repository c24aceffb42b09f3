//! An event broker for telemetry streams: frames events for the wire, keeps a
//! memory-bounded history for late joiners, tracks connected clients and
//! drives each client's replay-then-stream session.
pub mod blueprint;
pub mod broker;
pub mod codec;
pub mod frame;
pub mod registry;
pub mod retention;
pub mod session;

pub use broker::ServerState;
