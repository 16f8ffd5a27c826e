//! Presence diffs: who joined and who left between two presence states.

use crate::sync::presence_state::{delta, PresenceState, RawPresenceState, StateModel};
use vstd::prelude::*;

verus! {

/// A diff in canonical shape.
#[derive(Debug, Clone)]
pub struct PresenceDiff {
    pub joins: PresenceState,
    pub leaves: PresenceState,
}

/// A diff as the wire carries it.
#[derive(Debug, Clone)]
pub struct RawPresenceDiff {
    pub joins: RawPresenceState,
    pub leaves: RawPresenceState,
}

/// What joins when `current` is replaced by the snapshot `new_state`: the
/// references of the snapshot that live nowhere in `current`.
pub open spec fn joins_of(current: StateModel, new_state: StateModel) -> StateModel {
    delta(new_state, current)
}

/// What leaves when `current` is replaced by the snapshot `new_state`: the
/// references of `current` that live nowhere in the snapshot.
pub open spec fn leaves_of(current: StateModel, new_state: StateModel) -> StateModel {
    delta(current, new_state)
}

/// The participants among `ids` that `part` names, in the order of `ids`.
pub open spec fn ids_within(ids: Seq<Seq<char>>, part: StateModel) -> Seq<Seq<char>> {
    ids.filter(|id: Seq<char>| part.contains_key(id))
}

impl PresenceDiff {
    /// The diff with the given joins and leaves.
    pub fn new(joins: PresenceState, leaves: PresenceState) -> (diff: PresenceDiff)
        ensures
            diff.joins == joins,
            diff.leaves == leaves,
    {
        PresenceDiff { joins, leaves }
    }

    /// The canonical diff that a wire diff spells out.
    pub fn from_raw(raw: RawPresenceDiff) -> (diff: PresenceDiff)
        ensures
            diff.joins@ == crate::sync::presence_state::raw_model(raw.joins),
            diff.joins.ids() == raw.joins.keys(),
            diff.joins.wf(),
            diff.leaves@ == crate::sync::presence_state::raw_model(raw.leaves),
            diff.leaves.ids() == raw.leaves.keys(),
            diff.leaves.wf(),
    {
        PresenceDiff {
            joins: PresenceState::from_raw(raw.joins),
            leaves: PresenceState::from_raw(raw.leaves),
        }
    }

    /// The diff that leads from `current` to the snapshot `new_state`.
    /// Participants come in the order that they have in the snapshot (joins)
    /// and in `current` (leaves).
    pub fn diff_from(current: &PresenceState, new_state: &PresenceState) -> (diff: PresenceDiff)
        ensures
            diff.joins@ == joins_of(current@, new_state@),
            diff.joins.ids() == ids_within(new_state.ids(), joins_of(current@, new_state@)),
            diff.joins.wf(),
            diff.leaves@ == leaves_of(current@, new_state@),
            diff.leaves.ids() == ids_within(current.ids(), leaves_of(current@, new_state@)),
            diff.leaves.wf(),
    {
        PresenceDiff { joins: new_state.delta(current), leaves: current.delta(new_state) }
    }
}

} // verus!
