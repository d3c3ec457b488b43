//! The errors that the routing core itself raises.

use crate::endpoint::{decimal, push_decimal};
use crate::refresh::RefreshError;
use crate::slots::SlotMapError;
use vstd::prelude::*;
use vstd::string::StringExecFns;

verus! {

/// The kinds of error that reach a caller.
#[derive(Debug, Clone, Copy, PartialEq, Eq, Structural)]
pub enum ErrorKind {
    /// The client was set up with an endpoint it cannot use.
    InvalidClientConfig,
    /// No node could be reached.
    IoError,
    /// A node gave an answer that makes no sense.
    ResponseError,
}

/// What can go wrong in setting up a client, in connecting it, and in
/// refreshing the topology.
#[derive(Debug, Clone, Copy, PartialEq, Eq, Structural)]
pub enum ClusterError {
    /// The endpoint at position `index` is no valid address of a node.
    InvalidUrl { index: usize },
    /// The endpoint at position `index` is a UNIX domain socket. The
    /// cluster announces its nodes by address and port only, so such an
    /// endpoint cannot be used.
    UnixSocket { index: usize },
    /// None of the initial endpoints could be connected to.
    NoInitialConnections,
    /// The topology could not be refreshed.
    Refresh(RefreshError),
    /// A node announced slot ranges that make no slot map.
    Slots(SlotMapError),
}

/// The kind of an error.
pub open spec fn kind_of(error: ClusterError) -> ErrorKind {
    match error {
        ClusterError::InvalidUrl { .. } => ErrorKind::InvalidClientConfig,
        ClusterError::UnixSocket { .. } => ErrorKind::InvalidClientConfig,
        ClusterError::NoInitialConnections => ErrorKind::IoError,
        ClusterError::Refresh(_) => ErrorKind::IoError,
        ClusterError::Slots(_) => ErrorKind::ResponseError,
    }
}

/// The text of an error.
pub open spec fn message_of(error: ClusterError) -> Seq<char> {
    match error {
        ClusterError::InvalidUrl { .. } => "Redis URL did not parse"@,
        ClusterError::UnixSocket { .. } =>
            "This library cannot use unix socket because Redis's cluster command returns only cluster's IP and port."@,
        ClusterError::NoInitialConnections => "Failed to create initial connections"@,
        ClusterError::Refresh(RefreshError::NoConnections) =>
            "No connections to refresh slots from"@,
        ClusterError::Refresh(RefreshError::Unfinished) => "Slot refresh is still running"@,
        ClusterError::Slots(SlotMapError::Misaligned { expected, start, end }) =>
            "Slot refresh error. Received overlapping slots "@ + decimal(expected as int)
                + " and "@ + decimal(start as int) + ".."@ + decimal(end as int),
        ClusterError::Slots(SlotMapError::Incomplete { next }) =>
            "Slot refresh error. Lacks the slots >= "@ + decimal(next as int),
    }
}

impl ClusterError {
    /// The kind of the error.
    pub fn kind(&self) -> (kind: ErrorKind)
        ensures
            kind == kind_of(*self),
    {
        match self {
            ClusterError::InvalidUrl { .. } => ErrorKind::InvalidClientConfig,
            ClusterError::UnixSocket { .. } => ErrorKind::InvalidClientConfig,
            ClusterError::NoInitialConnections => ErrorKind::IoError,
            ClusterError::Refresh(_) => ErrorKind::IoError,
            ClusterError::Slots(_) => ErrorKind::ResponseError,
        }
    }

    /// The text of the error.
    pub fn message(&self) -> (text: String)
        ensures
            text@ == message_of(*self),
    {
        match self {
            ClusterError::InvalidUrl { .. } => String::from_str("Redis URL did not parse"),
            ClusterError::UnixSocket { .. } => String::from_str(
                "This library cannot use unix socket because Redis's cluster command returns only cluster's IP and port.",
            ),
            ClusterError::NoInitialConnections => String::from_str(
                "Failed to create initial connections",
            ),
            ClusterError::Refresh(RefreshError::NoConnections) => String::from_str(
                "No connections to refresh slots from",
            ),
            ClusterError::Refresh(RefreshError::Unfinished) => String::from_str(
                "Slot refresh is still running",
            ),
            ClusterError::Slots(SlotMapError::Misaligned { expected, start, end }) => {
                let mut text = String::from_str("Slot refresh error. Received overlapping slots ");
                push_decimal(&mut text, *expected as i64);
                text.append(" and ");
                push_decimal(&mut text, *start as i64);
                text.append("..");
                push_decimal(&mut text, *end as i64);
                text
            },
            ClusterError::Slots(SlotMapError::Incomplete { next }) => {
                let mut text = String::from_str("Slot refresh error. Lacks the slots >= ");
                push_decimal(&mut text, *next as i64);
                text
            },
        }
    }
}

} // verus!
