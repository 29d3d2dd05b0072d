//! Server-side transport core that bridges a `renet` server to a relay SDK's
//! listen socket: admission of connecting peers, the table of live
//! connections, and the outbound batch of each tick.

pub mod access;
pub mod egress;
pub mod event;
pub mod laws;
pub mod server;
pub mod upstream;

pub use crate::access::AccessPermission;
pub use crate::server::{SteamServerConfig, SteamServerTransport};

use vstd::prelude::*;

verus! {

/// Ceiling on the messages asked of one connection in one receive call.
pub const MAX_MESSAGE_BATCH_SIZE: usize = 512;

/// Documented ceiling, in bytes, on what is buffered per tick.
pub const MAX_MESSAGE_BUFFER_SIZE: usize = 500 * 1024;

} // verus!
