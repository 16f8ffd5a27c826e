//! The bodies of inbound frames, once decoded.

use crate::sync::presence_diff::RawPresenceDiff;
use crate::sync::presence_state::RawPresenceState;
use serde_json::Value;
use vstd::prelude::*;

verus! {

/// The kinds of database change that a callback can ask for.
#[derive(Clone, Copy, Debug, PartialEq, Eq, Hash, Structural)]
pub enum PostgresChangesEvent {
    /// Any kind of change.
    All,
    Insert,
    Update,
    Delete,
}

/// One database change as the server reports it.
#[derive(Debug)]
pub struct CdcChange {
    /// The kind of change; `All` does not occur on the wire and is accepted
    /// only by callbacks that ask for `All`.
    pub event: PostgresChangesEvent,
    pub schema: String,
    pub table: String,
    /// The row filter under which the server matched the change, if any.
    pub filter: Option<String>,
    /// The changed row.
    pub record: Value,
}

/// The body of one inbound frame.
#[derive(Debug)]
pub enum Payload {
    /// A full presence snapshot.
    PresenceState(RawPresenceState),
    /// A presence diff.
    PresenceDiff(RawPresenceDiff),
    /// A database change.
    Change(CdcChange),
    /// Anything else: acknowledgements, heartbeats, system notices.
    Other,
}

/// What one attempt to read from the transport brought.
#[derive(Debug)]
pub enum Incoming {
    /// No frame is waiting.
    Nothing,
    /// One frame, decoded.
    Frame { topic: String, payload: Payload },
    /// The transport is closed.
    Closed,
    /// A frame arrived that cannot be decoded.
    Corrupt,
}

/// Whether the kind that a callback asked for covers the kind of a change.
pub open spec fn kind_covers(asked: PostgresChangesEvent, got: PostgresChangesEvent) -> bool {
    asked == PostgresChangesEvent::All || asked == got
}

} // verus!
