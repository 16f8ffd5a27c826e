//! The presence engine of one channel: canonical state, registered
//! callbacks, and the two ways in which the server's word is taken in.
//!
//! A diff is committed to the state first; the callbacks run afterwards and
//! are handed copies, so a callback that fails leaves a state that is whole.
//! What was handed to which callback, and in what order, is recorded in a
//! ghost journal: every entry is written beside the call that it records.

use crate::sync::presence_diff::{ids_within, joins_of, leaves_of};
use crate::sync::presence_state::{apply_diff, ids_after, StateModel};
use vstd::prelude::*;

pub use crate::sync::presence_diff::{PresenceDiff, RawPresenceDiff};
pub use crate::sync::presence_state::{
    PresenceMeta,
    PresenceMetas,
    PresenceState,
    PresenceStateInner,
    RawPresenceState,
};

verus! {

/// The kinds of presence events that a callback can be registered for.
#[derive(Clone, Copy, Debug, PartialEq, Eq, Hash, Structural)]
pub enum PresenceEvent {
    Track,
    Untrack,
    Join,
    Leave,
    Sync,
}

/// What a registered callback can do: take one event.
pub trait PresenceCallback {
    /// Takes the participant id, the state before the change, and the
    /// payload of the event.
    fn call(&mut self, id: String, current: PresenceState, payload: PresenceState);
}

/// One call of one callback, as the journal records it.
pub ghost struct Delivery {
    /// The kind of event.
    pub event: PresenceEvent,
    /// Which callback: its position in the order of registration.
    pub slot: int,
    /// The participant the call was about.
    pub id: Seq<char>,
    /// The state handed over as the state before the change.
    pub current: StateModel,
    /// The state handed over as payload.
    pub payload: StateModel,
}

/// The calls that one event about one participant leads to, among the first
/// `upto` registrations: one for each callback registered for `event`, in
/// the order of registration.
pub open spec fn fan_out(
    kinds: Seq<PresenceEvent>,
    upto: int,
    event: PresenceEvent,
    id: Seq<char>,
    current: StateModel,
    payload: StateModel,
) -> Seq<Delivery>
    decreases upto,
{
    if upto <= 0 {
        Seq::empty()
    } else {
        let earlier = fan_out(kinds, upto - 1, event, id, current, payload);
        if kinds[upto - 1] == event {
            earlier.push(Delivery { event, slot: upto - 1, id, current, payload })
        } else {
            earlier
        }
    }
}

/// The calls that one event about each of `ids` leads to: participant by
/// participant in the order of `ids`, each with its full fan-out.
pub open spec fn rounds(
    kinds: Seq<PresenceEvent>,
    event: PresenceEvent,
    ids: Seq<Seq<char>>,
    current: StateModel,
    payload: StateModel,
) -> Seq<Delivery>
    decreases ids.len(),
{
    if ids.len() == 0 {
        Seq::empty()
    } else {
        rounds(kinds, event, ids.drop_last(), current, payload) + fan_out(
            kinds,
            kinds.len() as int,
            event,
            ids.last(),
            current,
            payload,
        )
    }
}

/// Every call among the first `upto` registrations goes to a callback
/// registered for `event`, and carries the three arguments.
proof fn lemma_fan_out_calls(
    kinds: Seq<PresenceEvent>,
    upto: int,
    event: PresenceEvent,
    id: Seq<char>,
    current: StateModel,
    payload: StateModel,
)
    requires
        0 <= upto <= kinds.len(),
    ensures
        forall|i: int|
            0 <= i < fan_out(kinds, upto, event, id, current, payload).len() ==> {
                let call = #[trigger] fan_out(kinds, upto, event, id, current, payload)[i];
                &&& 0 <= call.slot < upto
                &&& kinds[call.slot] == event
                &&& call == Delivery { event, slot: call.slot, id, current, payload }
            },
    decreases upto,
{
    if upto > 0 {
        lemma_fan_out_calls(kinds, upto - 1, event, id, current, payload);
        let earlier = fan_out(kinds, upto - 1, event, id, current, payload);
        let calls = fan_out(kinds, upto, event, id, current, payload);
        assert forall|i: int| 0 <= i < calls.len() implies {
            let call = #[trigger] calls[i];
            &&& 0 <= call.slot < upto
            &&& kinds[call.slot] == event
            &&& call == Delivery { event, slot: call.slot, id, current, payload }
        } by {
            if i < earlier.len() {
                assert(calls[i] == earlier[i]);
            }
        }
    }
}

/// The calls come in the order of registration, so no callback is called twice.
proof fn lemma_fan_out_ascending(
    kinds: Seq<PresenceEvent>,
    upto: int,
    event: PresenceEvent,
    id: Seq<char>,
    current: StateModel,
    payload: StateModel,
)
    requires
        0 <= upto <= kinds.len(),
    ensures
        forall|i: int, j: int|
            0 <= i < j < fan_out(kinds, upto, event, id, current, payload).len() ==> (#[trigger] fan_out(
                kinds,
                upto,
                event,
                id,
                current,
                payload,
            )[i]).slot < (#[trigger] fan_out(kinds, upto, event, id, current, payload)[j]).slot,
    decreases upto,
{
    if upto > 0 {
        lemma_fan_out_ascending(kinds, upto - 1, event, id, current, payload);
        lemma_fan_out_calls(kinds, upto - 1, event, id, current, payload);
        let earlier = fan_out(kinds, upto - 1, event, id, current, payload);
        let calls = fan_out(kinds, upto, event, id, current, payload);
        assert forall|i: int, j: int| 0 <= i < j < calls.len() implies (#[trigger] calls[i]).slot < (
        #[trigger] calls[j]).slot by {
            assert(calls[i] == earlier[i]);
            if j < earlier.len() {
                assert(calls[j] == earlier[j]);
            }
        }
    }
}

/// Every callback registered for `event` among the first `upto` is called.
proof fn lemma_fan_out_complete(
    kinds: Seq<PresenceEvent>,
    upto: int,
    event: PresenceEvent,
    id: Seq<char>,
    current: StateModel,
    payload: StateModel,
)
    requires
        0 <= upto <= kinds.len(),
    ensures
        forall|slot: int|
            0 <= slot < upto && #[trigger] kinds[slot] == event ==> exists|i: int|
                0 <= i < fan_out(kinds, upto, event, id, current, payload).len() && (#[trigger] fan_out(
                    kinds,
                    upto,
                    event,
                    id,
                    current,
                    payload,
                )[i]).slot == slot,
    decreases upto,
{
    if upto > 0 {
        lemma_fan_out_complete(kinds, upto - 1, event, id, current, payload);
        let earlier = fan_out(kinds, upto - 1, event, id, current, payload);
        let calls = fan_out(kinds, upto, event, id, current, payload);
        assert forall|slot: int| 0 <= slot < upto && #[trigger] kinds[slot] == event implies exists|
            i: int,
        |
            0 <= i < calls.len() && (#[trigger] calls[i]).slot == slot by {
            if slot == upto - 1 {
                let last = calls.len() - 1;
                assert(calls[last].slot == slot);
            } else {
                let i = choose|i: int| 0 <= i < earlier.len() && (#[trigger] earlier[i]).slot == slot;
                assert(calls[i] == earlier[i]);
            }
        }
    }
}

/// One event about one participant reaches only callbacks registered for
/// that event, and each is handed the same three arguments.
pub proof fn law_fan_out_reaches_only_registered(
    kinds: Seq<PresenceEvent>,
    event: PresenceEvent,
    id: Seq<char>,
    current: StateModel,
    payload: StateModel,
)
    ensures
        forall|i: int|
            0 <= i < fan_out(kinds, kinds.len() as int, event, id, current, payload).len() ==> {
                let call = #[trigger] fan_out(
                    kinds,
                    kinds.len() as int,
                    event,
                    id,
                    current,
                    payload,
                )[i];
                &&& 0 <= call.slot < kinds.len()
                &&& kinds[call.slot] == event
                &&& call == Delivery { event, slot: call.slot, id, current, payload }
            },
{
    lemma_fan_out_calls(kinds, kinds.len() as int, event, id, current, payload);
}

/// One event about one participant reaches the callbacks in the order of
/// their registration: an earlier call is to an earlier registration. So no
/// callback is called twice.
pub proof fn law_fan_out_in_registration_order(
    kinds: Seq<PresenceEvent>,
    event: PresenceEvent,
    id: Seq<char>,
    current: StateModel,
    payload: StateModel,
)
    ensures
        forall|i: int, j: int|
            0 <= i < j < fan_out(kinds, kinds.len() as int, event, id, current, payload).len()
                ==> (#[trigger] fan_out(kinds, kinds.len() as int, event, id, current, payload)[i]).slot
                < (#[trigger] fan_out(kinds, kinds.len() as int, event, id, current, payload)[j]).slot,
{
    lemma_fan_out_ascending(kinds, kinds.len() as int, event, id, current, payload);
}

/// One event about one participant reaches every callback registered for that event.
pub proof fn law_fan_out_reaches_all_registered(
    kinds: Seq<PresenceEvent>,
    event: PresenceEvent,
    id: Seq<char>,
    current: StateModel,
    payload: StateModel,
)
    ensures
        forall|slot: int|
            0 <= slot < kinds.len() && #[trigger] kinds[slot] == event ==> exists|i: int|
                0 <= i < fan_out(kinds, kinds.len() as int, event, id, current, payload).len() && (
                #[trigger] fan_out(kinds, kinds.len() as int, event, id, current, payload)[i]).slot
                    == slot,
{
    lemma_fan_out_complete(kinds, kinds.len() as int, event, id, current, payload);
}

/// An event about one participant leads to that participant's fan-out and
/// nothing else.
pub proof fn law_rounds_of_one(
    kinds: Seq<PresenceEvent>,
    event: PresenceEvent,
    id: Seq<char>,
    current: StateModel,
    payload: StateModel,
)
    ensures
        rounds(kinds, event, seq![id], current, payload) == fan_out(
            kinds,
            kinds.len() as int,
            event,
            id,
            current,
            payload,
        ),
{
    let one = seq![id];
    assert(one.drop_last() =~= Seq::<Seq<char>>::empty());
    assert(rounds(kinds, event, one.drop_last(), current, payload) =~= Seq::<Delivery>::empty());
    assert(rounds(kinds, event, one, current, payload) =~= fan_out(
        kinds,
        kinds.len() as int,
        event,
        id,
        current,
        payload,
    ));
}

/// Participants are served one after the other: the calls for a list of
/// participants are the calls for its front followed by the calls for its back.
pub proof fn law_rounds_in_participant_order(
    kinds: Seq<PresenceEvent>,
    event: PresenceEvent,
    front: Seq<Seq<char>>,
    back: Seq<Seq<char>>,
    current: StateModel,
    payload: StateModel,
)
    ensures
        rounds(kinds, event, front + back, current, payload) == rounds(
            kinds,
            event,
            front,
            current,
            payload,
        ) + rounds(kinds, event, back, current, payload),
    decreases back.len(),
{
    if back.len() == 0 {
        assert(front + back =~= front);
        assert(rounds(kinds, event, front, current, payload) + Seq::<Delivery>::empty() =~= rounds(
            kinds,
            event,
            front,
            current,
            payload,
        ));
    } else {
        law_rounds_in_participant_order(kinds, event, front, back.drop_last(), current, payload);
        assert((front + back).drop_last() =~= front + back.drop_last());
        assert((front + back).last() == back.last());
        let last = fan_out(kinds, kinds.len() as int, event, back.last(), current, payload);
        let a = rounds(kinds, event, front, current, payload);
        let b = rounds(kinds, event, back.drop_last(), current, payload);
        assert((a + b) + last =~= a + (b + last));
    }
}

struct Registration<C> {
    event: PresenceEvent,
    callback: C,
}

/// The presence engine of one channel.
pub struct RealtimePresence<C: PresenceCallback> {
    pub state: PresenceState,
    callbacks: Vec<Registration<C>>,
    journal: Ghost<Seq<Delivery>>,
}

impl<C: PresenceCallback> Default for RealtimePresence<C> {
    /// An engine with an empty state and no callbacks.
    fn default() -> (engine: Self)
        ensures
            engine.canonical()@ == Map::<Seq<char>, crate::sync::presence_state::RefsModel>::empty(),
            engine.canonical().ids() == Seq::<Seq<char>>::empty(),
            engine.kinds() == Seq::<PresenceEvent>::empty(),
            engine.handlers() == Seq::<C>::empty(),
            engine.journal() == Seq::<Delivery>::empty(),
    {
        RealtimePresence::new()
    }
}

impl<C: PresenceCallback> RealtimePresence<C> {
    /// The canonical state.
    pub closed spec fn canonical(&self) -> PresenceState {
        self.state
    }

    /// The event kind of each registration, in the order of registration.
    pub closed spec fn kinds(&self) -> Seq<PresenceEvent> {
        Seq::new(self.callbacks.len() as nat, |i: int| self.callbacks[i].event)
    }

    /// The registered callbacks, in the order of registration.
    pub closed spec fn handlers(&self) -> Seq<C> {
        Seq::new(self.callbacks.len() as nat, |i: int| self.callbacks[i].callback)
    }

    /// Every call of a callback that this engine has made, oldest first.
    pub closed spec fn journal(&self) -> Seq<Delivery> {
        self.journal@
    }

    /// Whether this engine is what `before` becomes by taking in a diff:
    /// the state after the diff, the same registrations, and a journal
    /// grown by the `Join` rounds and then the `Leave` rounds, each call
    /// with the state before the diff and the joins as payload.
    pub open spec fn diff_taken(
        &self,
        before: &Self,
        join_ids: Seq<Seq<char>>,
        joins: StateModel,
        leave_ids: Seq<Seq<char>>,
        leaves: StateModel,
    ) -> bool {
        &&& self.canonical()@ == apply_diff(before.canonical()@, joins, leaves)
        &&& self.canonical().ids() == ids_after(
            before.canonical().ids(),
            before.canonical()@,
            join_ids,
            leaves,
        )
        &&& self.canonical().wf()
        &&& self.kinds() == before.kinds()
        &&& self.journal() == before.journal() + rounds(
            before.kinds(),
            PresenceEvent::Join,
            join_ids,
            before.canonical()@,
            joins,
        ) + rounds(before.kinds(), PresenceEvent::Leave, leave_ids, before.canonical()@, joins)
    }

    /// Whether this engine is what `before` becomes by taking in a
    /// snapshot: the state after the diff that leads to the snapshot, the
    /// same registrations, and a journal grown by the `Join` rounds, the
    /// `Leave` rounds, and then one `Sync` round over the participants of
    /// the new state, each `Sync` call with the state before and the state after.
    pub open spec fn snapshot_taken(
        &self,
        before: &Self,
        new_ids: Seq<Seq<char>>,
        new_state: StateModel,
    ) -> bool {
        let joins = joins_of(before.canonical()@, new_state);
        let leaves = leaves_of(before.canonical()@, new_state);
        &&& self.canonical()@ == apply_diff(before.canonical()@, joins, leaves)
        &&& self.canonical().ids() == ids_after(
            before.canonical().ids(),
            before.canonical()@,
            ids_within(new_ids, joins),
            leaves,
        )
        &&& self.canonical().wf()
        &&& self.kinds() == before.kinds()
        &&& self.journal() == before.journal() + rounds(
            before.kinds(),
            PresenceEvent::Join,
            ids_within(new_ids, joins),
            before.canonical()@,
            joins,
        ) + rounds(
            before.kinds(),
            PresenceEvent::Leave,
            ids_within(before.canonical().ids(), leaves),
            before.canonical()@,
            joins,
        ) + rounds(
            before.kinds(),
            PresenceEvent::Sync,
            self.canonical().ids(),
            before.canonical()@,
            self.canonical()@,
        )
    }

    /// An engine with an empty state and no callbacks.
    pub fn new() -> (engine: Self)
        ensures
            engine.canonical()@ == Map::<Seq<char>, crate::sync::presence_state::RefsModel>::empty(),
            engine.canonical().ids() == Seq::<Seq<char>>::empty(),
            engine.kinds() == Seq::<PresenceEvent>::empty(),
            engine.handlers() == Seq::<C>::empty(),
            engine.journal() == Seq::<Delivery>::empty(),
    {
        let engine = RealtimePresence {
            state: PresenceState::new(),
            callbacks: Vec::new(),
            journal: Ghost(Seq::empty()),
        };
        assert(engine.kinds() =~= Seq::<PresenceEvent>::empty());
        assert(engine.handlers() =~= Seq::<C>::empty());
        engine
    }

    /// Registers `callback` for `event`, behind every callback registered before.
    pub fn add_callback(&mut self, event: PresenceEvent, callback: C)
        ensures
            final(self).kinds() == old(self).kinds().push(event),
            final(self).handlers() == old(self).handlers().push(callback),
            final(self).canonical() == old(self).canonical(),
            final(self).journal() == old(self).journal(),
    {
        self.callbacks.push(Registration { event, callback });
        assert(self.kinds() =~= old(self).kinds().push(event));
        assert(self.handlers() =~= old(self).handlers().push(callback));
    }

    /// Calls every callback registered for `event`, in the order of
    /// registration, each with copies of the three arguments.
    fn notify(
        &mut self,
        event: PresenceEvent,
        id: &String,
        current: &PresenceState,
        payload: &PresenceState,
    )
        ensures
            final(self).canonical() == old(self).canonical(),
            final(self).kinds() == old(self).kinds(),
            final(self).journal() == old(self).journal() + fan_out(
                old(self).kinds(),
                old(self).kinds().len() as int,
                event,
                id@,
                current@,
                payload@,
            ),
    {
        let n = self.callbacks.len();
        let mut k: usize = 0;
        assert(self.journal() + Seq::<Delivery>::empty() =~= self.journal());
        while k < n
            invariant
                k <= n,
                n == self.callbacks.len(),
                self.canonical() == old(self).canonical(),
                self.kinds() == old(self).kinds(),
                self.journal() == old(self).journal() + fan_out(
                    old(self).kinds(),
                    k as int,
                    event,
                    id@,
                    current@,
                    payload@,
                ),
            decreases n - k,
        {
            let ghost kinds = self.kinds();
            assert(kinds[k as int] == self.callbacks[k as int].event);
            if self.callbacks[k].event == event {
                let participant = id.clone();
                let before = current.clone();
                let carried = payload.clone();
                self.callbacks[k].callback.call(participant, before, carried);
                proof {
                    self.journal@ = self.journal@.push(
                        Delivery {
                            event,
                            slot: k as int,
                            id: id@,
                            current: current@,
                            payload: payload@,
                        },
                    );
                }
            }
            proof {
                assert(self.kinds() =~= kinds);
                assert(self.journal() =~= old(self).journal() + fan_out(
                    kinds,
                    k + 1,
                    event,
                    id@,
                    current@,
                    payload@,
                ));
            }
            k += 1;
        }
    }

    /// Runs `notify` for each participant of `about`, in its order.
    fn notify_all(
        &mut self,
        event: PresenceEvent,
        about: &PresenceState,
        current: &PresenceState,
        payload: &PresenceState,
    )
        ensures
            final(self).canonical() == old(self).canonical(),
            final(self).kinds() == old(self).kinds(),
            final(self).journal() == old(self).journal() + rounds(
                old(self).kinds(),
                event,
                about.ids(),
                current@,
                payload@,
            ),
    {
        let n = about.len();
        let mut i: usize = 0;
        assert(self.journal() + rounds(
            self.kinds(),
            event,
            about.ids().take(0),
            current@,
            payload@,
        ) =~= self.journal());
        while i < n
            invariant
                i <= n,
                n == about.ids().len(),
                self.canonical() == old(self).canonical(),
                self.kinds() == old(self).kinds(),
                self.journal() == old(self).journal() + rounds(
                    old(self).kinds(),
                    event,
                    about.ids().take(i as int),
                    current@,
                    payload@,
                ),
            decreases n - i,
        {
            let id = about.id_at(i);
            self.notify(event, id, current, payload);
            proof {
                assert(about.ids().take(i + 1).drop_last() =~= about.ids().take(i as int));
                assert(about.ids().take(i + 1).last() == id@);
                assert(self.journal() =~= old(self).journal() + rounds(
                    old(self).kinds(),
                    event,
                    about.ids().take(i + 1),
                    current@,
                    payload@,
                ));
            }
            i += 1;
        }
        assert(about.ids().take(n as int) =~= about.ids());
    }

    /// Takes in an explicit diff. The participants named in `leaves` go,
    /// whole; `joins` is laid over what stays. Then every `Join` callback is
    /// called once for each participant of `joins`, and every `Leave`
    /// callback once for each participant of `leaves`. Each call is handed
    /// the state as it was before the diff, and the joins as payload.
    /// Returns the state after the diff.
    ///
    /// Beware: a `Leave` call carries the joins too, not the leaves. That
    /// may well be a mistake in the protocol's convention; it is kept here
    /// in the open rather than mended in silence.
    pub fn sync_diff(&mut self, diff: PresenceDiff) -> (state: &PresenceState)
        ensures
            final(self).diff_taken(
                old(self),
                diff.joins.ids(),
                diff.joins@,
                diff.leaves.ids(),
                diff.leaves@,
            ),
            *state == final(self).canonical(),
    {
        let before = self.state.clone();
        self.state.apply(&diff.joins, &diff.leaves);
        self.notify_all(PresenceEvent::Join, &diff.joins, &before, &diff.joins);
        self.notify_all(PresenceEvent::Leave, &diff.leaves, &before, &diff.joins);
        &self.state
    }

    /// Takes in a full snapshot. The diff that leads to it is worked out
    /// and taken in as by `sync_diff`. Then every `Sync` callback is called
    /// once for each participant of the state that results, with the state
    /// before and the state after.
    pub fn sync(&mut self, new_state: PresenceState)
        ensures
            final(self).snapshot_taken(old(self), new_state.ids(), new_state@),
    {
        let diff = PresenceDiff::diff_from(&self.state, &new_state);
        let before = self.state.clone();
        self.sync_diff(diff);
        let after = self.state.clone();
        self.notify_all(PresenceEvent::Sync, &after, &before, &after);
    }
}

} // verus!
