//! Routing core of a client for a sharded key-value cluster: key hashing,
//! slot maps, connection pools, per-request retry policy and the pipeline
//! state machine that ties them together.
//!
//! The library decides and computes; it opens no socket and keeps no
//! timer. Its owner carries out what it decides.

pub mod client;
pub mod discovery;
pub mod endpoint;
pub mod error;
pub mod hash;
pub mod pipeline;
pub mod pool;
pub mod refresh;
pub mod reply;
pub mod request;
pub mod slots;
pub mod trace;

pub use client::{Client, NodeAddr};
pub use error::{ClusterError, ErrorKind};
pub use hash::slot_for_packed_command;
pub use pipeline::{ConnectionState, Dispatch, Pipeline, Route};
pub use pool::EndpointSet;
pub use refresh::Refresh;
pub use reply::Reply;
pub use request::{CmdArg, Message, Next, Outcome, Request, Response};
pub use slots::{build_slot_map, Slot, SlotMap};
