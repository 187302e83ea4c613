//! Message protocol layer of a peer-to-peer chatroom client.
//!
//! The crate covers the versioned wire format for direct and group chat
//! messages, the backward-compatible decode chain, the bounded peer-name
//! registry, and the decision logic of the command dispatcher and of the two
//! message consumers. Networking, terminal I/O and task plumbing live in the
//! accompanying application code, which calls into this library with plain
//! values.

use vstd::prelude::*;

pub mod chat;
mod ext;
pub mod msg;
pub mod registry;
pub mod text;
pub mod wire;

verus! {

/// Largest payload, in bytes, that either consumer accepts and that an
/// outgoing message may carry.
pub const MAX_MESSAGE_SIZE_BYTES: usize = 65536;

/// Length, in hex characters, of a peer identity string.
pub const MAX_IDENTITY_LENGTH: usize = 64;

/// Longest topic string the protocol uses.
pub const MAX_TOPIC_LENGTH: usize = 256;

/// Length of a group identifier string.
pub const GROUP_ID_LENGTH: usize = 36;

} // verus!
