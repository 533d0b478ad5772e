//! Core logic of a chat-to-container bridge: authorization tiers, rate
//! limiting, session continuity, per-identity concurrency, container naming
//! and response bounding, verified with Verus.
//!
//! All engine and transport I/O lives outside this crate; the modules here
//! hold the decisions and the durable state, each behind a contract.

pub mod text;

pub mod permission;

pub mod store;

pub mod guard;

pub mod executor;

pub mod docker;

pub mod config;

pub mod router;

pub mod transport;
