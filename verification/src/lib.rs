//! Synchronization core for a collaboratively edited event-thread service.
//!
//! Several editors mutate structured "threads" (ordered tables of timestamped
//! rows grouped into sections) while passive viewers receive live updates.
//! This crate holds the state that must stay coherent across concurrent
//! requests and long-lived connections:
//!
//! * a bounded, least-recently-used, read-through cache of entity snapshots
//!   ([`cache`]);
//! * the pessimistic, time-limited section-lock protocol ([`lock`]);
//! * the room-based publish/subscribe registry that fans committed changes
//!   out to subscribers ([`rooms`]);
//! * the recursive response-field gate applied to outbound payloads
//!   ([`filter`]);
//! * the write pipeline tying store commits to cache updates and change
//!   events ([`pipeline`]).
//!
//! Around those, [`entity`] models the stored snapshots, [`json`] the
//! payload trees, [`payload`] the request shapes and endpoint rules,
//! [`wire`] the outbound JSON, [`markdown`] the mirrored table text, and
//! [`claim`], [`telemetry`] and [`strutil`] the remaining small pieces.
//!
//! The durable store, the HTTP and socket transports, token issuance and
//! payload encryption are external collaborators; they are driven from a
//! thin unverified shell which hands plain values in and out of this crate.

pub mod cache;
pub mod claim;
pub mod entity;
pub mod filter;
pub mod json;
pub mod lock;
pub mod markdown;
pub mod payload;
pub mod pipeline;
pub mod rooms;
pub mod strutil;
pub mod telemetry;
pub mod wire;
