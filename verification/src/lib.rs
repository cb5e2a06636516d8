//! Client library for offloading package builds to remote workers.
//!
//! The library covers the logic of the client: the ignore engine that
//! filters workspace files, the source archiver, the wire codec with its
//! length-prefixed framing, the build-session state machine with atomic
//! artifact materialization, the retry controller, and the cluster
//! coordinator that orders packages and assigns them to workers.
//! Network and file-system access stay outside the library; callers hand
//! in plain values and receive plain values back.

use vstd::prelude::*;

pub mod archive;
pub mod bytes;
pub mod codec;
pub mod coordinator;
pub mod errors;
pub mod fsplan;
pub mod graph;
pub mod ignore;
pub mod retry;
pub mod session;
pub mod units;
