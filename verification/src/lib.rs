//! Selene is a shard-per-core backend framework: one OS thread per shard, each
//! owning a runtime, its own `SO_REUSEPORT` listener, and its own connection
//! state. No connection ever moves from one shard to another.
//!
//! This crate is what the framework decides. It holds no thread, no socket and
//! no clock: whoever does hands in what happened, with the time at which it
//! did, and is told what to do next.
//!
//! - [`shard`]: the pool. Thread placement, fan-out to every shard, and
//!   graceful shutdown.
//! - [`session`]: one shard's life, from the start of its thread to its end.
//! - [`listener`]: how a shard opens its listener, what it does with the
//!   connections that it is handed, and the registry that it keeps of them.
//! - [`budget`]: background priority. A warrant over the shard's observed
//!   runtime, applied at points that a background task chooses.
//! - [`watchdog`]: stall detection. Shards tick a counter; a shard whose
//!   counter has stopped moving is reported.
//! - [`channel`]: the channels between a pool and its shards.
//! - [`resp`]: framing of RESP commands for a pipelining server.
//! - [`time`], [`net`], [`num`]: the plain values that these speak of.
//!
//! Metrics, snapshot upload, DNS and admin HTTP belong on a runtime that the
//! application builds and owns. The seam is two calls:
//! [`stats`](shard::Shards::stats) asks every shard for its counters, one
//! message per shard, and [`affinity`](shard::Shards::affinity) gives the CPUs
//! that the shards claimed, so that the application can keep its own threads
//! off them.

pub mod budget;
pub mod channel;
pub mod listener;
pub mod net;
pub mod num;
pub mod resp;
pub mod session;
pub mod shard;
pub mod time;
pub mod watchdog;
