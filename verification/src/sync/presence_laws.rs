//! Laws of presence diffs, stated over the models and proved once for all states.

use crate::sync::presence_diff::{joins_of, leaves_of};
use crate::sync::presence_state::{
    apply_diff,
    delta,
    has_absent_ref,
    holds_ref,
    ids_after,
    merged,
    ref_set,
    refs_absent_from,
    DataModel,
    RefsModel,
    StateModel,
};
use crate::ordered_map::lemma_filter_all;
use vstd::prelude::*;

verus! {

/// Whether every reference that `current` and the snapshot `new_state`
/// share is held, in `current`, by some participant that loses no reference.
pub open spec fn shared_refs_stay(current: StateModel, new_state: StateModel) -> bool {
    forall|phx_ref: Seq<char>|
        holds_ref(current, phx_ref) && #[trigger] holds_ref(new_state, phx_ref) ==> exists|
            id: Seq<char>,
        |
            #[trigger] current.contains_key(id) && current[id].contains_key(phx_ref)
                && !has_absent_ref(current[id], new_state)
}

/// A reference lives in what joins exactly if it lives in the snapshot and not in `current`.
proof fn lemma_joining_ref(current: StateModel, new_state: StateModel, phx_ref: Seq<char>)
    ensures
        holds_ref(joins_of(current, new_state), phx_ref) <==> (holds_ref(new_state, phx_ref)
            && !holds_ref(current, phx_ref)),
{
    let joins = joins_of(current, new_state);
    if holds_ref(joins, phx_ref) {
        let id = choose|id: Seq<char>| #[trigger]
            joins.contains_key(id) && joins[id].contains_key(phx_ref);
        assert(new_state.contains_key(id) && new_state[id].contains_key(phx_ref));
    }
    if holds_ref(new_state, phx_ref) && !holds_ref(current, phx_ref) {
        let id = choose|id: Seq<char>| #[trigger]
            new_state.contains_key(id) && new_state[id].contains_key(phx_ref);
        assert(new_state[id].contains_key(phx_ref) && !holds_ref(current, phx_ref));
        assert(has_absent_ref(new_state[id], current));
        assert(joins.contains_key(id) && joins[id].contains_key(phx_ref));
    }
}

/// A reference lives in the merged state exactly if it lives in one of the two.
proof fn lemma_merged_ref(state: StateModel, joins: StateModel, phx_ref: Seq<char>)
    ensures
        holds_ref(merged(state, joins), phx_ref) <==> (holds_ref(state, phx_ref) || holds_ref(
            joins,
            phx_ref,
        )),
{
    let all = merged(state, joins);
    if holds_ref(all, phx_ref) {
        let id = choose|id: Seq<char>| #[trigger]
            all.contains_key(id) && all[id].contains_key(phx_ref);
        if joins.contains_key(id) && joins[id].contains_key(phx_ref) {
        } else {
            assert(state.contains_key(id) && state[id].contains_key(phx_ref));
        }
    }
    if holds_ref(state, phx_ref) {
        let id = choose|id: Seq<char>| #[trigger]
            state.contains_key(id) && state[id].contains_key(phx_ref);
        assert(all.contains_key(id) && all[id].contains_key(phx_ref));
    }
    if holds_ref(joins, phx_ref) {
        let id = choose|id: Seq<char>| #[trigger]
            joins.contains_key(id) && joins[id].contains_key(phx_ref);
        assert(all.contains_key(id) && all[id].contains_key(phx_ref));
    }
}

/// A reference lives in what stays exactly if, in `current`, a participant
/// that loses no reference holds it.
proof fn lemma_staying_ref(current: StateModel, new_state: StateModel, phx_ref: Seq<char>)
    ensures
        holds_ref(current.remove_keys(leaves_of(current, new_state).dom()), phx_ref) <==> exists|
            id: Seq<char>,
        |
            #[trigger] current.contains_key(id) && current[id].contains_key(phx_ref)
                && !has_absent_ref(current[id], new_state),
        holds_ref(current.remove_keys(leaves_of(current, new_state).dom()), phx_ref) ==> holds_ref(
            current,
            phx_ref,
        ) && holds_ref(new_state, phx_ref),
{
    let leaves = leaves_of(current, new_state);
    let kept = current.remove_keys(leaves.dom());
    if holds_ref(kept, phx_ref) {
        let id = choose|id: Seq<char>| #[trigger]
            kept.contains_key(id) && kept[id].contains_key(phx_ref);
        assert(current.contains_key(id) && current[id].contains_key(phx_ref));
        assert(!leaves.contains_key(id));
        assert(!has_absent_ref(current[id], new_state));
        assert(holds_ref(new_state, phx_ref));
    }
    if exists|id: Seq<char>| #[trigger]
        current.contains_key(id) && current[id].contains_key(phx_ref) && !has_absent_ref(
            current[id],
            new_state,
        ) {
        let id = choose|id: Seq<char>| #[trigger]
            current.contains_key(id) && current[id].contains_key(phx_ref) && !has_absent_ref(
                current[id],
                new_state,
            );
        assert(!leaves.contains_key(id));
        assert(kept.contains_key(id) && kept[id].contains_key(phx_ref));
    }
}

/// The references that join are those of the snapshot that `current` does
/// not hold; the references that leave are those of `current` that the
/// snapshot does not hold. Who holds them plays no part.
pub proof fn law_diff_ref_sets(current: StateModel, new_state: StateModel)
    ensures
        ref_set(joins_of(current, new_state)) == ref_set(new_state).difference(ref_set(current)),
        ref_set(leaves_of(current, new_state)) == ref_set(current).difference(ref_set(new_state)),
{
    assert forall|phx_ref: Seq<char>|
        ref_set(joins_of(current, new_state)).contains(phx_ref) <==> ref_set(new_state).difference(
            ref_set(current),
        ).contains(phx_ref) by {
        lemma_joining_ref(current, new_state, phx_ref);
    }
    assert forall|phx_ref: Seq<char>|
        ref_set(leaves_of(current, new_state)).contains(phx_ref) <==> ref_set(current).difference(
            ref_set(new_state),
        ).contains(phx_ref) by {
        lemma_joining_ref(new_state, current, phx_ref);
    }
    assert(ref_set(joins_of(current, new_state)) =~= ref_set(new_state).difference(
        ref_set(current),
    ));
    assert(ref_set(leaves_of(current, new_state)) =~= ref_set(current).difference(
        ref_set(new_state),
    ));
}

/// Taking in the diff that leads to a snapshot never leaves a reference
/// that the snapshot lacks, and brings in every reference that is new.
pub proof fn law_sync_refs_bounds(current: StateModel, new_state: StateModel)
    ensures
        ref_set(
            apply_diff(current, joins_of(current, new_state), leaves_of(current, new_state)),
        ).subset_of(ref_set(new_state)),
        ref_set(new_state).difference(ref_set(current)).subset_of(
            ref_set(
                apply_diff(current, joins_of(current, new_state), leaves_of(current, new_state)),
            ),
        ),
{
    let joins = joins_of(current, new_state);
    let kept = current.remove_keys(leaves_of(current, new_state).dom());
    assert forall|phx_ref: Seq<char>|
        (holds_ref(merged(kept, joins), phx_ref) ==> holds_ref(new_state, phx_ref)) && (holds_ref(
            new_state,
            phx_ref,
        ) && !holds_ref(current, phx_ref) ==> holds_ref(merged(kept, joins), phx_ref)) by {
        lemma_joining_ref(current, new_state, phx_ref);
        lemma_merged_ref(kept, joins, phx_ref);
        lemma_staying_ref(current, new_state, phx_ref);
    }
}

/// Where the shared references stay, taking in the diff that leads to a
/// snapshot yields a state with exactly the references of the snapshot.
pub proof fn law_sync_reaches_snapshot_refs(current: StateModel, new_state: StateModel)
    requires
        shared_refs_stay(current, new_state),
    ensures
        ref_set(apply_diff(current, joins_of(current, new_state), leaves_of(current, new_state)))
            == ref_set(new_state),
{
    let joins = joins_of(current, new_state);
    let kept = current.remove_keys(leaves_of(current, new_state).dom());
    let after = apply_diff(current, joins, leaves_of(current, new_state));
    assert forall|phx_ref: Seq<char>| holds_ref(after, phx_ref) <==> holds_ref(
        new_state,
        phx_ref,
    ) by {
        lemma_joining_ref(current, new_state, phx_ref);
        lemma_merged_ref(kept, joins, phx_ref);
        lemma_staying_ref(current, new_state, phx_ref);
    }
    assert(ref_set(after) =~= ref_set(new_state));
}

/// Only where the shared references stay: a state with exactly the
/// references of the snapshot shows that they did.
pub proof fn law_sync_reaches_snapshot_refs_only_then(current: StateModel, new_state: StateModel)
    requires
        ref_set(apply_diff(current, joins_of(current, new_state), leaves_of(current, new_state)))
            == ref_set(new_state),
    ensures
        shared_refs_stay(current, new_state),
{
    let joins = joins_of(current, new_state);
    let kept = current.remove_keys(leaves_of(current, new_state).dom());
    let after = apply_diff(current, joins, leaves_of(current, new_state));
    assert forall|phx_ref: Seq<char>|
        holds_ref(current, phx_ref) && #[trigger] holds_ref(new_state, phx_ref) implies exists|
            id: Seq<char>,
        |
            #[trigger] current.contains_key(id) && current[id].contains_key(phx_ref)
                && !has_absent_ref(current[id], new_state) by {
        assert(ref_set(new_state).contains(phx_ref));
        assert(ref_set(after).contains(phx_ref));
        lemma_joining_ref(current, new_state, phx_ref);
        lemma_merged_ref(kept, joins, phx_ref);
        lemma_staying_ref(current, new_state, phx_ref);
    }
}

/// The participants of `state` that hold at least one reference.
pub open spec fn occupied(state: StateModel) -> StateModel {
    Map::new(
        |id: Seq<char>|
            state.contains_key(id) && exists|phx_ref: Seq<char>| #[trigger]
                state[id].contains_key(phx_ref),
        |id: Seq<char>| state[id],
    )
}

/// Against an empty state everything that holds a reference is new.
proof fn lemma_delta_against_nothing(state: StateModel)
    ensures
        delta(state, Map::empty()) == occupied(state),
        delta(Map::empty(), state) == Map::<Seq<char>, RefsModel>::empty(),
{
    let nothing = Map::<Seq<char>, RefsModel>::empty();
    assert forall|phx_ref: Seq<char>| !holds_ref(nothing, phx_ref) by {}
    assert forall|id: Seq<char>| state.contains_key(id) implies (has_absent_ref(state[id], nothing)
        <==> exists|phx_ref: Seq<char>| #[trigger] state[id].contains_key(phx_ref)) by {
        if has_absent_ref(state[id], nothing) {
            let r = choose|r: Seq<char>| #[trigger]
                state[id].contains_key(r) && !holds_ref(nothing, r);
            assert(state[id].contains_key(r));
        }
        if exists|phx_ref: Seq<char>| #[trigger] state[id].contains_key(phx_ref) {
            let r = choose|r: Seq<char>| #[trigger] state[id].contains_key(r);
            assert(state[id].contains_key(r) && !holds_ref(nothing, r));
        }
    }
    assert forall|id: Seq<char>| #[trigger] occupied(state).contains_key(id) implies delta(
        state,
        nothing,
    )[id] == occupied(state)[id] by {
        assert(refs_absent_from(state[id], nothing) =~= state[id]);
    }
    assert(delta(state, nothing) =~= occupied(state));
    assert(delta(nothing, state) =~= nothing);
}

/// The first snapshot: into an empty state, a snapshot brings every
/// participant that holds a reference, as joins, and nothing leaves. The
/// state afterwards is the snapshot without its participants that hold nothing.
pub proof fn law_first_snapshot(new_state: StateModel)
    ensures
        joins_of(Map::empty(), new_state) == occupied(new_state),
        leaves_of(Map::empty(), new_state) == Map::<Seq<char>, RefsModel>::empty(),
        apply_diff(
            Map::empty(),
            joins_of(Map::empty(), new_state),
            leaves_of(Map::empty(), new_state),
        ) == occupied(new_state),
{
    let nothing = Map::<Seq<char>, RefsModel>::empty();
    lemma_delta_against_nothing(new_state);
    assert(nothing.remove_keys(nothing.dom()) =~= nothing);
    assert forall|id: Seq<char>| #[trigger] occupied(new_state).contains_key(id) implies merged(
        nothing,
        occupied(new_state),
    )[id] == occupied(new_state)[id] by {
        assert(Map::<Seq<char>, DataModel>::empty().union_prefer_right(occupied(new_state)[id])
            =~= occupied(new_state)[id]);
    }
    assert(merged(nothing, occupied(new_state)) =~= occupied(new_state));
}

/// The empty snapshot: every participant that holds a reference leaves,
/// nothing joins, and afterwards only participants that hold nothing are left.
pub proof fn law_empty_snapshot(current: StateModel)
    ensures
        joins_of(current, Map::empty()) == Map::<Seq<char>, RefsModel>::empty(),
        leaves_of(current, Map::empty()) == occupied(current),
        apply_diff(current, joins_of(current, Map::empty()), leaves_of(current, Map::empty()))
            == current.remove_keys(occupied(current).dom()),
        forall|phx_ref: Seq<char>|
            !holds_ref(
                apply_diff(
                    current,
                    joins_of(current, Map::empty()),
                    leaves_of(current, Map::empty()),
                ),
                phx_ref,
            ),
{
    let nothing = Map::<Seq<char>, RefsModel>::empty();
    let kept = current.remove_keys(occupied(current).dom());
    lemma_delta_against_nothing(current);
    assert forall|id: Seq<char>| #[trigger] kept.contains_key(id) implies merged(kept, nothing)[id]
        == kept[id] by {
        assert(kept[id].union_prefer_right(Map::<Seq<char>, DataModel>::empty()) =~= kept[id]);
    }
    assert(merged(kept, nothing) =~= kept);
    assert forall|phx_ref: Seq<char>| !holds_ref(kept, phx_ref) by {
        if holds_ref(kept, phx_ref) {
            let id = choose|id: Seq<char>| #[trigger]
                kept.contains_key(id) && kept[id].contains_key(phx_ref);
            assert(current[id].contains_key(phx_ref));
            assert(occupied(current).contains_key(id));
        }
    }
}

/// A diff with no joins and no leaves changes nothing: not the state, not
/// the order of the participants.
pub proof fn law_empty_diff_changes_nothing(state: StateModel, ids: Seq<Seq<char>>)
    ensures
        apply_diff(state, Map::empty(), Map::empty()) == state,
        ids_after(ids, state, Seq::empty(), Map::empty()) == ids,
{
    let nothing = Map::<Seq<char>, RefsModel>::empty();
    assert(state.remove_keys(nothing.dom()) =~= state);
    assert forall|id: Seq<char>| state.contains_key(id) implies #[trigger] merged(state, nothing)[id]
        == state[id] by {
        assert(state[id].union_prefer_right(Map::<Seq<char>, DataModel>::empty()) =~= state[id]);
    }
    assert(merged(state, nothing) =~= state);
    lemma_filter_all(ids, |id: Seq<char>| !nothing.contains_key(id));
    reveal(Seq::filter);
    assert(Seq::<Seq<char>>::empty().filter(
        |id: Seq<char>| !state.remove_keys(nothing.dom()).contains_key(id),
    ) =~= Seq::<Seq<char>>::empty());
    assert(ids + Seq::<Seq<char>>::empty() =~= ids);
}

/// A participant that a diff names among the leaves, and not among the
/// joins, is gone afterwards: its key is absent, whatever references it held.
pub proof fn law_leave_removes_participant(
    state: StateModel,
    joins: StateModel,
    leaves: StateModel,
    id: Seq<char>,
)
    requires
        leaves.contains_key(id),
        !joins.contains_key(id),
    ensures
        !apply_diff(state, joins, leaves).contains_key(id),
{
}

/// A join extends: a participant that is not among the leaves keeps every
/// reference it had and gains every reference that joins for it. A joining
/// reference carries the joining data; a reference that is not named among
/// the joins keeps its data.
pub proof fn law_join_extends(
    state: StateModel,
    joins: StateModel,
    leaves: StateModel,
    id: Seq<char>,
    had: Seq<char>,
    gained: Seq<char>,
)
    requires
        state.contains_key(id),
        state[id].contains_key(had),
        joins.contains_key(id),
        joins[id].contains_key(gained),
        !leaves.contains_key(id),
    ensures
        apply_diff(state, joins, leaves).contains_key(id),
        apply_diff(state, joins, leaves)[id].contains_key(had),
        apply_diff(state, joins, leaves)[id].contains_key(gained),
        apply_diff(state, joins, leaves)[id][gained] == joins[id][gained],
        !joins[id].contains_key(had) ==> apply_diff(state, joins, leaves)[id][had] == state[id][had],
{
}

} // verus!
