//! A stateless WebRTC signaling rendezvous service.
//!
//! Two peers exchange SDP offers/answers and ICE candidates through a
//! shared object store: each peer polls, uploading signals it has
//! produced and downloading signals from its counterpart, until both
//! sides know enough to connect directly. This crate holds the
//! signaling state machine: per-session signal queues with monotonic
//! read cursors, room-based pairing with service-tag gating, the
//! SDP/ICE completion rules that decide when a connection can be
//! attempted, poll pacing, and the expiry sweep. The store and HTTP
//! edges live outside; every function here is pure logic over plain
//! values, verified against its contract.

pub mod auth;
pub mod db;
pub mod poll;
pub mod room;
