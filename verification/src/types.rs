//! Identifiers and the small value types shared by the whole crate.

use vstd::prelude::*;

verus! {

/// Identifies one live connection. Unique while the process runs.
pub type ConnID = usize;

/// Identifies a user. Owned by the storage system.
pub type UserID = i32;

/// Identifies a chat group. Owned by the storage system.
pub type GroupID = i32;

/// Identifies a channel of a group. Owned by the storage system.
pub type ChannelID = i32;

/// Summary of one channel, as storage reports it.
#[derive(Debug)]
pub struct Channel {
    pub channel_id: ChannelID,
    pub name: String,
}

/// The identity of one connection, fixed from upgrade to close.
#[derive(Clone, Copy, Debug, PartialEq, Eq, Structural)]
pub struct ConnectionContext {
    pub user_id: UserID,
    pub group_id: GroupID,
    pub conn_id: ConnID,
}

/// A change in a user's presence inside one group.
#[derive(Clone, Copy, Debug, PartialEq, Eq, Structural)]
pub enum PresenceEvent {
    /// The user went from no connection to one.
    Online(UserID),
    /// The user went from one connection to none while the group lives on.
    Offline(UserID),
}

/// A failure reported by the storage system.
#[derive(Debug)]
pub struct StorageError {
    pub message: String,
}

} // verus!
