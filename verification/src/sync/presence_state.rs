//! Presence state: who is present, under which references, with what data.
//!
//! The canonical shape is participant id, then `phx_ref`, then state key, then
//! value. Its model is a map of maps of maps; the order in which the
//! participants first arrived is kept beside it, because callbacks are
//! delivered in that order.

use crate::ordered_map::{
    lemma_assoc_at,
    lemma_filter_agree,
    lemma_filter_push,
    lemma_take_next,
    OrderedMap,
};
use serde_json::Value;
use vstd::prelude::*;

verus! {

/// What one live instance of a participant carries: state key to value.
pub type StateData = OrderedMap<Value>;

/// The live instances of one participant: `phx_ref` to state data.
pub type PresenceRefs = OrderedMap<StateData>;

/// Participant id to live instances.
pub type PresenceStateInner = OrderedMap<PresenceRefs>;

/// The wire shape of a presence state: participant id to a list of metas.
pub type RawPresenceState = OrderedMap<PresenceMetas>;

/// Model of state data.
pub type DataModel = Map<Seq<char>, Value>;

/// Model of one participant: `phx_ref` to state data.
pub type RefsModel = Map<Seq<char>, DataModel>;

/// Model of a presence state: participant id to references.
pub type StateModel = Map<Seq<char>, RefsModel>;

/// One live instance as the wire carries it.
#[derive(Debug, Clone)]
pub struct PresenceMeta {
    pub phx_ref: String,
    pub state_data: StateData,
}

/// The metas of one participant as the wire carries them.
#[derive(Debug, Clone)]
pub struct PresenceMetas {
    pub metas: Vec<PresenceMeta>,
}

/// The canonical presence state.
#[derive(Debug)]
pub struct PresenceState(PresenceStateInner);

/// The model of one participant's references.
pub open spec fn refs_model(refs: PresenceRefs) -> RefsModel {
    refs@.map_values(|data: StateData| data@)
}

/// The references that a list of metas spells out. A later meta with the
/// same `phx_ref` takes the place of an earlier one.
pub open spec fn metas_model(metas: Seq<PresenceMeta>) -> RefsModel
    decreases metas.len(),
{
    if metas.len() == 0 {
        Map::empty()
    } else {
        metas_model(metas.drop_last()).insert(metas.last().phx_ref@, metas.last().state_data@)
    }
}

/// The state that a list of entries spells out. A later entry with the
/// same participant id takes the place of an earlier one.
pub open spec fn entries_model(entries: Seq<(String, PresenceRefs)>) -> StateModel
    decreases entries.len(),
{
    if entries.len() == 0 {
        Map::empty()
    } else {
        entries_model(entries.drop_last()).insert(
            entries.last().0@,
            refs_model(entries.last().1),
        )
    }
}

/// The order of the participants that a list of entries spells out: each
/// id where it first occurs.
pub open spec fn entries_ids(entries: Seq<(String, PresenceRefs)>) -> Seq<Seq<char>>
    decreases entries.len(),
{
    if entries.len() == 0 {
        Seq::empty()
    } else {
        let earlier = entries_ids(entries.drop_last());
        if earlier.contains(entries.last().0@) {
            earlier
        } else {
            earlier.push(entries.last().0@)
        }
    }
}

/// The canonical state that a wire state spells out.
pub open spec fn raw_model(raw: RawPresenceState) -> StateModel {
    raw@.map_values(|metas: PresenceMetas| metas_model(metas.metas@))
}

/// Whether `phx_ref` lives under any participant of `state`.
pub open spec fn holds_ref(state: StateModel, phx_ref: Seq<char>) -> bool {
    exists|id: Seq<char>| #[trigger] state.contains_key(id) && state[id].contains_key(phx_ref)
}

/// All references that live in `state`, whoever holds them.
pub open spec fn ref_set(state: StateModel) -> Set<Seq<char>> {
    Set::new(|phx_ref: Seq<char>| holds_ref(state, phx_ref))
}

/// Those of `refs` that live nowhere in `other`.
pub open spec fn refs_absent_from(refs: RefsModel, other: StateModel) -> RefsModel {
    refs.restrict(Set::new(|phx_ref: Seq<char>| !holds_ref(other, phx_ref)))
}

/// Whether any of `refs` lives nowhere in `other`.
pub open spec fn has_absent_ref(refs: RefsModel, other: StateModel) -> bool {
    exists|phx_ref: Seq<char>| #[trigger] refs.contains_key(phx_ref) && !holds_ref(other, phx_ref)
}

/// What `state` has and `other` lacks: each participant of `state` with the
/// references that live nowhere in `other`. A participant without such a
/// reference is left out.
pub open spec fn delta(state: StateModel, other: StateModel) -> StateModel {
    Map::new(
        |id: Seq<char>| state.contains_key(id) && has_absent_ref(state[id], other),
        |id: Seq<char>| refs_absent_from(state[id], other),
    )
}

/// The references of `id` in `state`, none if `id` is not there.
pub open spec fn refs_or_none(state: StateModel, id: Seq<char>) -> RefsModel {
    if state.contains_key(id) {
        state[id]
    } else {
        Map::empty()
    }
}

/// `state` with `joins` laid over it, reference by reference: a participant
/// in both keeps the references it had and gains those that join, a joining
/// reference taking the place of one it names.
pub open spec fn merged(state: StateModel, joins: StateModel) -> StateModel {
    Map::new(
        |id: Seq<char>| state.contains_key(id) || joins.contains_key(id),
        |id: Seq<char>| refs_or_none(state, id).union_prefer_right(refs_or_none(joins, id)),
    )
}

/// `state` after a diff: every participant named in `leaves` goes, whole,
/// then `joins` is laid over what stays.
pub open spec fn apply_diff(state: StateModel, joins: StateModel, leaves: StateModel) -> StateModel {
    merged(state.remove_keys(leaves.dom()), joins)
}

/// The order of the participants after a diff: those that stay keep their
/// order, those that are new follow in the order of `join_ids`.
pub open spec fn ids_after(
    ids: Seq<Seq<char>>,
    state: StateModel,
    join_ids: Seq<Seq<char>>,
    leaves: StateModel,
) -> Seq<Seq<char>> {
    ids.filter(|id: Seq<char>| !leaves.contains_key(id)) + join_ids.filter(
        |id: Seq<char>| !state.remove_keys(leaves.dom()).contains_key(id),
    )
}

/// A copy of state data: same keys, same values.
pub fn clone_data(data: &StateData) -> (copy: StateData)
    ensures
        copy@ == data@,
        copy.keys() == data.keys(),
{
    let copy = data.clone();
    assert(copy.values() =~= data.values());
    copy
}

/// A copy of one participant's references.
pub fn clone_refs(refs: &PresenceRefs) -> (copy: PresenceRefs)
    ensures
        refs_model(copy) == refs_model(*refs),
        copy.keys() == refs.keys(),
{
    let copy = refs.clone();
    proof {
        use_type_invariant(refs);
        use_type_invariant(&copy);
        assert forall|i: int| 0 <= i < refs.values().len() implies (#[trigger] copy.values()[i])@
            == refs.values()[i]@ by {
            assert(cloned::<StateData>(refs.values()[i], copy.values()[i]));
            assert(copy.values()[i].values() =~= refs.values()[i].values());
        }
        assert forall|k: Seq<char>| refs@.contains_key(k) implies (#[trigger] copy@[k])@
            == refs@[k]@ by {
            let i = refs.keys().index_of(k);
            assert(0 <= i < refs.keys().len() && refs.keys()[i] == k);
            lemma_assoc_at(refs.keys(), refs.values(), i);
            lemma_assoc_at(copy.keys(), copy.values(), i);
        }
        assert(refs_model(copy) =~= refs_model(*refs));
    }
    copy
}

/// The same items, last first.
fn reversed<T>(items: Vec<T>) -> (turned: Vec<T>)
    ensures
        turned@ == items@.reverse(),
{
    let ghost all = items@;
    let mut rest = items;
    let mut turned: Vec<T> = Vec::new();
    while rest.len() > 0
        invariant
            rest@ == all.take(rest@.len() as int),
            rest@.len() + turned@.len() == all.len(),
            forall|j: int| 0 <= j < turned@.len() ==> turned@[j] == all[all.len() - 1 - j],
        decreases rest@.len(),
    {
        let item = rest.pop().unwrap();
        turned.push(item);
        assert(rest@ =~= all.take(rest@.len() as int));
    }
    assert(turned@ =~= all.reverse());
    turned
}

/// The references that a list of metas spells out.
pub fn refs_from_metas(metas: &Vec<PresenceMeta>) -> (refs: PresenceRefs)
    ensures
        refs_model(refs) == metas_model(metas@),
{
    let mut refs: PresenceRefs = OrderedMap::new();
    let mut i: usize = 0;
    assert(refs_model(refs) =~= metas_model(metas@.take(0)));
    while i < metas.len()
        invariant
            i <= metas.len(),
            refs_model(refs) == metas_model(metas@.take(i as int)),
        decreases metas.len() - i,
    {
        let ghost before = refs_model(refs);
        let phx_ref = metas[i].phx_ref.clone();
        let data = clone_data(&metas[i].state_data);
        refs.insert(phx_ref, data);
        proof {
            assert(metas@.take(i + 1).drop_last() =~= metas@.take(i as int));
            assert(refs_model(refs) =~= before.insert(metas[i as int].phx_ref@, data@));
        }
        i += 1;
    }
    assert(metas@.take(metas.len() as int) =~= metas@);
    refs
}

/// Lays `more` over `target`, reference by reference.
pub fn extend_refs(target: &mut PresenceRefs, more: &PresenceRefs)
    ensures
        refs_model(*final(target)) == refs_model(*old(target)).union_prefer_right(refs_model(*more)),
{
    let ghost before = target@;
    let n = more.len();
    let mut i: usize = 0;
    while i < n
        invariant
            i <= n,
            n == more.keys().len(),
            forall|k: Seq<char>| #[trigger]
                target@.contains_key(k) <==> (before.contains_key(k) || more.keys().take(
                    i as int,
                ).contains(k)),
            forall|k: Seq<char>| #[trigger]
                more.keys().take(i as int).contains(k) ==> target@[k]@ == more@[k]@,
            forall|k: Seq<char>|
                target@.contains_key(k) && !more.keys().take(i as int).contains(k) ==> #[trigger] target@[k]
                    == before[k],
        decreases n - i,
    {
        let phx_ref = more.key_at(i);
        let data = more.value_at(i);
        let copy = clone_data(data);
        proof {
            lemma_take_next(more.keys(), i as int);
        }
        target.insert(phx_ref.clone(), copy);
        i += 1;
    }
    proof {
        assert(more.keys().take(n as int) =~= more.keys());
        assert(refs_model(*target) =~= refs_model(*old(target)).union_prefer_right(
            refs_model(*more),
        ));
    }
}

impl View for PresenceState {
    type V = StateModel;

    closed spec fn view(&self) -> StateModel {
        self.0@.map_values(|refs: PresenceRefs| refs_model(refs))
    }
}

impl PresenceState {
    /// The participant ids, in the order in which they first arrived.
    pub closed spec fn ids(&self) -> Seq<Seq<char>> {
        self.0.keys()
    }

    /// The ids are the participants of the model, each once.
    pub open spec fn wf(&self) -> bool {
        &&& self.ids().no_duplicates()
        &&& forall|id: Seq<char>|
            #![trigger self@.contains_key(id)]
            #![trigger self.ids().contains(id)]
            self@.contains_key(id) <==> self.ids().contains(id)
    }

    /// The empty state.
    pub fn new() -> (state: Self)
        ensures
            state@ == Map::<Seq<char>, RefsModel>::empty(),
            state.ids() == Seq::<Seq<char>>::empty(),
            state.wf(),
    {
        let state = PresenceState(OrderedMap::new());
        assert(state@ =~= Map::<Seq<char>, RefsModel>::empty());
        state
    }

    /// The number of participants.
    pub fn len(&self) -> (n: usize)
        ensures
            n == self.ids().len(),
            self.wf(),
    {
        proof {
            use_type_invariant(&self.0);
        }
        self.0.len()
    }

    /// The id of the participant at position `i`.
    pub fn id_at(&self, i: usize) -> (id: &String)
        requires
            i < self.ids().len(),
        ensures
            id@ == self.ids()[i as int],
            self@.contains_key(id@),
    {
        self.0.key_at(i)
    }

    /// The references of the participant at position `i`.
    pub fn refs_at(&self, i: usize) -> (refs: &PresenceRefs)
        requires
            i < self.ids().len(),
        ensures
            refs_model(*refs) == self@[self.ids()[i as int]],
    {
        proof {
            use_type_invariant(&self.0);
            lemma_assoc_at(self.0.keys(), self.0.values(), i as int);
        }
        self.0.value_at(i)
    }

    /// Whether `id` is a participant.
    pub fn contains_id(&self, id: &String) -> (b: bool)
        ensures
            b == self@.contains_key(id@),
    {
        self.0.contains_key(id)
    }

    /// The references of participant `id`, if it is present.
    pub fn get(&self, id: &String) -> (found: Option<&PresenceRefs>)
        ensures
            match found {
                Some(refs) => self@.contains_key(id@) && refs_model(*refs) == self@[id@],
                None => !self@.contains_key(id@),
            },
    {
        self.0.get(id)
    }

    /// Sets the references of participant `id`. A participant that was
    /// present keeps its position; a new one goes to the end.
    pub fn insert(&mut self, id: String, refs: PresenceRefs)
        ensures
            final(self)@ == old(self)@.insert(id@, refs_model(refs)),
            final(self).ids() == if old(self)@.contains_key(id@) {
                old(self).ids()
            } else {
                old(self).ids().push(id@)
            },
            final(self).wf(),
    {
        self.0.insert(id, refs);
        proof {
            use_type_invariant(&self.0);
            assert(self@ =~= old(self)@.insert(id@, refs_model(refs)));
        }
    }

    /// Takes participant `id` out, with all its references.
    pub fn remove(&mut self, id: &String)
        ensures
            final(self)@ == old(self)@.remove(id@),
            final(self).ids() == old(self).ids().filter(|other: Seq<char>| other != id@),
            final(self).wf(),
    {
        self.0.remove(id);
        proof {
            use_type_invariant(&self.0);
            assert(self@ =~= old(self)@.remove(id@));
        }
    }

    /// Whether `phx_ref` lives under any participant.
    pub fn has_ref(&self, phx_ref: &String) -> (found: bool)
        ensures
            found == holds_ref(self@, phx_ref@),
    {
        proof {
            use_type_invariant(&self.0);
        }
        let n = self.0.len();
        let mut i: usize = 0;
        while i < n
            invariant
                i <= n,
                n == self.0.keys().len(),
                self.0.wf(),
                forall|j: int| 0 <= j < i ==> !self@[#[trigger] self.0.keys()[j]].contains_key(phx_ref@),
            decreases n - i,
        {
            proof {
                lemma_assoc_at(self.0.keys(), self.0.values(), i as int);
            }
            if self.0.value_at(i).contains_key(phx_ref) {
                assert(self@.contains_key(self.0.keys()[i as int]));
                return true;
            }
            i += 1;
        }
        proof {
            if holds_ref(self@, phx_ref@) {
                let id = choose|id: Seq<char>| #[trigger]
                    self@.contains_key(id) && self@[id].contains_key(phx_ref@);
                let j = self.0.keys().index_of(id);
                assert(0 <= j < n && self.0.keys()[j] == id);
            }
        }
        false
    }

    /// What this state has and `other` lacks.
    pub fn delta(&self, other: &PresenceState) -> (out: PresenceState)
        ensures
            out@ == delta(self@, other@),
            out.ids() == self.ids().filter(|id: Seq<char>| delta(self@, other@).contains_key(id)),
            out.wf(),
    {
        proof {
            use_type_invariant(&self.0);
        }
        let ghost keep = |id: Seq<char>| delta(self@, other@).contains_key(id);
        let mut out = PresenceState::new();
        let n = self.0.len();
        let mut i: usize = 0;
        proof {
            reveal(Seq::filter);
            assert(self.ids().take(0).filter(keep) =~= Seq::<Seq<char>>::empty());
        }
        while i < n
            invariant
                i <= n,
                n == self.ids().len(),
                self.0.wf(),
                out.wf(),
                keep == |id: Seq<char>| delta(self@, other@).contains_key(id),
                forall|id: Seq<char>| #[trigger]
                    out@.contains_key(id) <==> (self.ids().take(i as int).contains(id)
                        && delta(self@, other@).contains_key(id)),
                forall|id: Seq<char>| #[trigger]
                    out@.contains_key(id) ==> out@[id] == refs_absent_from(self@[id], other@),
                out.ids() == self.ids().take(i as int).filter(keep),
            decreases n - i,
        {
            let id = self.id_at(i);
            let refs = self.refs_at(i);
            let fresh = absent_refs(refs, other);
            proof {
                lemma_take_next(self.ids(), i as int);
                lemma_filter_push(self.ids().take(i as int), id@, keep);
            }
            if fresh.len() > 0 {
                out.insert(id.clone(), fresh);
            }
            i += 1;
        }
        proof {
            assert(self.ids().take(n as int) =~= self.ids());
            assert forall|id: Seq<char>| delta(self@, other@).contains_key(id) implies self.ids().contains(id) by {
                assert(self@.contains_key(id));
            }
            assert(out@ =~= delta(self@, other@));
        }
        out
    }

    /// Takes out every participant that `gone` names, whole.
    pub fn remove_all(&mut self, gone: &PresenceState)
        ensures
            final(self)@ == old(self)@.remove_keys(gone@.dom()),
            final(self).ids() == old(self).ids().filter(|id: Seq<char>| !gone@.contains_key(id)),
            final(self).wf(),
    {
        self.0.remove_all(&gone.0);
        proof {
            use_type_invariant(&self.0);
            assert(gone@.dom() =~= gone.0@.dom());
            assert(self@ =~= old(self)@.remove_keys(gone@.dom()));
            lemma_filter_agree(
                old(self).ids(),
                |k: Seq<char>| !gone.0@.contains_key(k),
                |id: Seq<char>| !gone@.contains_key(id),
            );
        }
    }

    /// Lays `joins` over this state, reference by reference. New
    /// participants go to the end, in the order of `joins`.
    pub fn extend(&mut self, joins: &PresenceState)
        ensures
            final(self)@ == merged(old(self)@, joins@),
            final(self).ids() == old(self).ids() + joins.ids().filter(
                |id: Seq<char>| !old(self)@.contains_key(id),
            ),
            final(self).wf(),
    {
        proof {
            use_type_invariant(&self.0);
            use_type_invariant(&joins.0);
        }
        let ghost state0 = self@;
        let ghost ids0 = self.ids();
        let ghost is_new = |id: Seq<char>| !state0.contains_key(id);
        let n = joins.0.len();
        let mut i: usize = 0;
        proof {
            reveal(Seq::filter);
            assert(joins.ids().take(0).filter(is_new) =~= Seq::<Seq<char>>::empty());
            assert(ids0 + Seq::<Seq<char>>::empty() =~= ids0);
        }
        while i < n
            invariant
                i <= n,
                n == joins.ids().len(),
                joins.0.wf(),
                self.wf(),
                state0 == old(self)@,
                ids0 == old(self).ids(),
                is_new == |id: Seq<char>| !state0.contains_key(id),
                forall|id: Seq<char>| #[trigger]
                    self@.contains_key(id) <==> (state0.contains_key(id) || joins.ids().take(
                        i as int,
                    ).contains(id)),
                forall|id: Seq<char>| #[trigger]
                    joins.ids().take(i as int).contains(id) ==> self@[id] == refs_or_none(
                        state0,
                        id,
                    ).union_prefer_right(joins@[id]),
                forall|id: Seq<char>|
                    self@.contains_key(id) && !joins.ids().take(i as int).contains(id)
                        ==> #[trigger] self@[id] == state0[id],
                self.ids() == ids0 + joins.ids().take(i as int).filter(is_new),
            decreases n - i,
        {
            let id = joins.id_at(i);
            let more = joins.refs_at(i);
            let ghost before = self@;
            let ghost ids_before = self.ids();
            proof {
                lemma_take_next(joins.ids(), i as int);
                lemma_filter_push(joins.ids().take(i as int), id@, is_new);
            }
            let mut target: PresenceRefs = match self.0.insert(id.clone(), OrderedMap::new()) {
                Some(had) => had,
                None => OrderedMap::new(),
            };
            assert(refs_model(target) =~= refs_or_none(before, id@));
            extend_refs(&mut target, more);
            self.0.insert(id.clone(), target);
            proof {
                use_type_invariant(&self.0);
                assert(self@ =~= before.insert(id@, refs_model(target)));
                assert(self.ids() == if before.contains_key(id@) {
                    ids_before
                } else {
                    ids_before.push(id@)
                });
                assert((ids0 + joins.ids().take(i as int).filter(is_new)).push(id@) =~= ids0
                    + joins.ids().take(i as int).filter(is_new).push(id@));
            }
            i += 1;
        }
        proof {
            assert(joins.ids().take(n as int) =~= joins.ids());
            assert forall|id: Seq<char>| joins@.contains_key(id) <==> joins.ids().contains(id) by {}
            assert forall|id: Seq<char>| #[trigger] self@.contains_key(id) implies self@[id]
                == merged(state0, joins@)[id] by {
                if joins@.contains_key(id) {
                    assert(joins.ids().contains(id));
                } else {
                    assert(!joins.ids().contains(id));
                    assert(self@[id] == state0[id]);
                    assert(state0[id].union_prefer_right(Map::<Seq<char>, DataModel>::empty())
                        =~= state0[id]);
                }
            }
            assert(self@ =~= merged(old(self)@, joins@));
        }
    }

    /// Applies a diff: the participants named in `leaves` go, whole, then
    /// `joins` is laid over what stays.
    pub fn apply(&mut self, joins: &PresenceState, leaves: &PresenceState)
        ensures
            final(self)@ == apply_diff(old(self)@, joins@, leaves@),
            final(self).ids() == ids_after(old(self).ids(), old(self)@, joins.ids(), leaves@),
            final(self).wf(),
    {
        self.remove_all(leaves);
        self.extend(joins);
    }

    /// The state that holds the given entries, taken in order: a later
    /// entry for the same participant takes the place of an earlier one,
    /// at the earlier one's position.
    pub fn from_entries(entries: Vec<(String, PresenceRefs)>) -> (state: PresenceState)
        ensures
            state@ == entries_model(entries@),
            state.ids() == entries_ids(entries@),
            state.wf(),
    {
        let ghost all = entries@;
        let mut stack = reversed(entries);
        let mut state = PresenceState::new();
        assert(all.take(0) =~= Seq::<(String, PresenceRefs)>::empty());
        while stack.len() > 0
            invariant
                stack@.len() <= all.len(),
                forall|j: int| 0 <= j < stack@.len() ==> stack@[j] == all[all.len() - 1 - j],
                state@ == entries_model(all.take(all.len() - stack@.len())),
                state.ids() == entries_ids(all.take(all.len() - stack@.len())),
                state.wf(),
            decreases stack@.len(),
        {
            let ghost done = all.len() - stack@.len();
            let entry = stack.pop().unwrap();
            assert(entry == all[done]);
            let (id, refs) = entry;
            state.insert(id, refs);
            proof {
                assert(all.take(done + 1).drop_last() =~= all.take(done));
                assert(all.take(done + 1).last() == all[done]);
            }
        }
        assert(all.take(all.len() as int) =~= all);
        state
    }

    /// The canonical state that a wire state spells out: each meta's
    /// `phx_ref` becomes the key of its state data.
    pub fn from_raw(raw: RawPresenceState) -> (state: PresenceState)
        ensures
            state@ == raw_model(raw),
            state.ids() == raw.keys(),
            state.wf(),
    {
        proof {
            use_type_invariant(&raw);
        }
        let mut state = PresenceState::new();
        let n = raw.len();
        let mut i: usize = 0;
        assert(raw.keys().take(0) =~= Seq::<Seq<char>>::empty());
        while i < n
            invariant
                i <= n,
                n == raw.keys().len(),
                raw.wf(),
                state.wf(),
                state.ids() == raw.keys().take(i as int),
                forall|id: Seq<char>| #[trigger]
                    state@.contains_key(id) ==> state@[id] == raw_model(raw)[id],
            decreases n - i,
        {
            let id = raw.key_at(i);
            let metas = raw.value_at(i);
            let refs = refs_from_metas(&metas.metas);
            proof {
                lemma_take_next(raw.keys(), i as int);
            }
            state.insert(id.clone(), refs);
            i += 1;
        }
        proof {
            assert(raw.keys().take(n as int) =~= raw.keys());
            assert(state@ =~= raw_model(raw));
        }
        state
    }
}

impl Default for PresenceMeta {
    /// A meta with an empty reference and no state data.
    fn default() -> (meta: Self)
        ensures
            meta.phx_ref@ == Seq::<char>::empty(),
            meta.state_data@ == Map::<Seq<char>, Value>::empty(),
    {
        PresenceMeta { phx_ref: String::new(), state_data: OrderedMap::new() }
    }
}

impl Default for PresenceMetas {
    /// No metas.
    fn default() -> (metas: Self)
        ensures
            metas.metas@ == Seq::<PresenceMeta>::empty(),
    {
        PresenceMetas { metas: Vec::new() }
    }
}

impl Default for PresenceState {
    /// The empty state.
    fn default() -> (state: Self)
        ensures
            state@ == Map::<Seq<char>, RefsModel>::empty(),
            state.ids() == Seq::<Seq<char>>::empty(),
            state.wf(),
    {
        PresenceState::new()
    }
}

impl Clone for PresenceState {
    /// A copy with the same participants in the same order.
    fn clone(&self) -> (copy: Self)
        ensures
            copy@ == self@,
            copy.ids() == self.ids(),
            copy.wf(),
    {
        proof {
            use_type_invariant(&self.0);
        }
        let mut copy = PresenceState::new();
        let n = self.0.len();
        let mut i: usize = 0;
        assert(self.ids().take(0) =~= Seq::<Seq<char>>::empty());
        while i < n
            invariant
                i <= n,
                n == self.ids().len(),
                self.0.wf(),
                copy.wf(),
                copy.ids() == self.ids().take(i as int),
                forall|id: Seq<char>| #[trigger] copy@.contains_key(id) ==> copy@[id] == self@[id],
            decreases n - i,
        {
            let id = self.id_at(i);
            let refs = clone_refs(self.refs_at(i));
            proof {
                lemma_take_next(self.ids(), i as int);
            }
            copy.insert(id.clone(), refs);
            i += 1;
        }
        proof {
            assert(self.ids().take(n as int) =~= self.ids());
            assert(copy@ =~= self@);
        }
        copy
    }
}

/// Those of `refs` that live nowhere in `other`, each with a copy of its data.
fn absent_refs(refs: &PresenceRefs, other: &PresenceState) -> (out: PresenceRefs)
    ensures
        refs_model(out) == refs_absent_from(refs_model(*refs), other@),
        out.keys().len() > 0 <==> has_absent_ref(refs_model(*refs), other@),
{
    proof {
        use_type_invariant(refs);
    }
    let mut out: PresenceRefs = OrderedMap::new();
    let n = refs.len();
    let mut i: usize = 0;
    while i < n
        invariant
            i <= n,
            n == refs.keys().len(),
            refs.wf(),
            forall|k: Seq<char>| #[trigger]
                out@.contains_key(k) <==> (refs.keys().take(i as int).contains(k) && !holds_ref(
                    other@,
                    k,
                )),
            forall|k: Seq<char>| #[trigger] out@.contains_key(k) ==> out@[k]@ == refs@[k]@,
        decreases n - i,
    {
        let phx_ref = refs.key_at(i);
        proof {
            lemma_take_next(refs.keys(), i as int);
        }
        if !other.has_ref(phx_ref) {
            let copy = clone_data(refs.value_at(i));
            out.insert(phx_ref.clone(), copy);
        }
        i += 1;
    }
    proof {
        use_type_invariant(&out);
        assert(refs.keys().take(n as int) =~= refs.keys());
        assert(refs_model(out) =~= refs_absent_from(refs_model(*refs), other@));
        if out.keys().len() > 0 {
            lemma_assoc_at(out.keys(), out.values(), 0);
            assert(refs_model(*refs).contains_key(out.keys()[0]));
        }
        if has_absent_ref(refs_model(*refs), other@) {
            let k = choose|k: Seq<char>| #[trigger]
                refs_model(*refs).contains_key(k) && !holds_ref(other@, k);
            assert(out@.contains_key(k));
        }
    }
    out
}

} // verus!
