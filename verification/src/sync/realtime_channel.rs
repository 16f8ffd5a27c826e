//! One subscribed topic: its callbacks for database changes, its presence
//! engine, and the routing of inbound frames to both.

use crate::message::cdc_message_filter::{accepts, registration_accepts, CdcMessageFilter};
use crate::message::payload::{CdcChange, Payload, PostgresChangesEvent};
use crate::sync::presence_diff::PresenceDiff;
use crate::sync::presence_state::{raw_model, PresenceState, RefsModel};
use crate::sync::realtime_presence::{Delivery, PresenceCallback, PresenceEvent, RealtimePresence};
use vstd::prelude::*;

verus! {

/// What a callback for database changes can do: take one change.
pub trait CdcCallback {
    fn call(&mut self, change: &CdcChange);
}

/// One call of one callback for database changes, as the journal records it.
pub ghost struct CdcDelivery {
    /// Which callback: its position in the order of registration.
    pub slot: int,
    /// The change handed over.
    pub change: CdcChange,
}

/// One kind of change under one set of criteria, as a join request names it.
#[derive(Debug)]
pub struct PostgresChange {
    pub event: PostgresChangesEvent,
    pub criteria: CdcMessageFilter,
}

/// What is sent to subscribe: the topic, and what every registration asks for.
#[derive(Debug)]
pub struct JoinRequest {
    pub topic: String,
    pub postgres_changes: Vec<PostgresChange>,
}

/// The calls that one change leads to among the first `upto` registrations:
/// one for each registration that accepts it, in the order of registration.
pub open spec fn cdc_fan_out(
    kinds: Seq<PostgresChangesEvent>,
    criteria: Seq<CdcMessageFilter>,
    upto: int,
    change: CdcChange,
) -> Seq<CdcDelivery>
    decreases upto,
{
    if upto <= 0 {
        Seq::empty()
    } else {
        let earlier = cdc_fan_out(kinds, criteria, upto - 1, change);
        if registration_accepts(kinds[upto - 1], criteria[upto - 1], change) {
            earlier.push(CdcDelivery { slot: upto - 1, change })
        } else {
            earlier
        }
    }
}

struct CdcRegistration<H> {
    kind: PostgresChangesEvent,
    criteria: CdcMessageFilter,
    callback: H,
}

/// One subscribed topic.
pub struct RealtimeChannel<P: PresenceCallback, H: CdcCallback> {
    topic: String,
    pub presence: RealtimePresence<P>,
    registrations: Vec<CdcRegistration<H>>,
    journal: Ghost<Seq<CdcDelivery>>,
}

impl<P: PresenceCallback, H: CdcCallback> RealtimeChannel<P, H> {
    /// The topic.
    pub closed spec fn topic(&self) -> Seq<char> {
        self.topic@
    }

    /// The presence engine.
    pub closed spec fn engine(&self) -> RealtimePresence<P> {
        self.presence
    }

    /// The kind of change that each registration asks for, in the order of registration.
    pub closed spec fn kinds(&self) -> Seq<PostgresChangesEvent> {
        Seq::new(self.registrations.len() as nat, |i: int| self.registrations[i].kind)
    }

    /// The criteria of each registration, in the order of registration.
    pub closed spec fn criteria(&self) -> Seq<CdcMessageFilter> {
        Seq::new(self.registrations.len() as nat, |i: int| self.registrations[i].criteria)
    }

    /// The registered callbacks for database changes, in the order of registration.
    pub closed spec fn handlers(&self) -> Seq<H> {
        Seq::new(self.registrations.len() as nat, |i: int| self.registrations[i].callback)
    }

    /// Whether this is a channel for `topic` that nobody has touched: no
    /// callbacks of either sort, nobody present, nothing delivered.
    pub open spec fn is_fresh(&self, topic: Seq<char>) -> bool {
        &&& self.topic() == topic
        &&& self.kinds() == Seq::<PostgresChangesEvent>::empty()
        &&& self.criteria() == Seq::<CdcMessageFilter>::empty()
        &&& self.handlers() == Seq::<H>::empty()
        &&& self.journal() == Seq::<CdcDelivery>::empty()
        &&& self.engine().canonical()@ == Map::<Seq<char>, RefsModel>::empty()
        &&& self.engine().canonical().ids() == Seq::<Seq<char>>::empty()
        &&& self.engine().kinds() == Seq::<PresenceEvent>::empty()
        &&& self.engine().handlers() == Seq::<P>::empty()
        &&& self.engine().journal() == Seq::<Delivery>::empty()
    }

    /// Every call of a callback for database changes that this channel has made, oldest first.
    pub closed spec fn journal(&self) -> Seq<CdcDelivery> {
        self.journal@
    }

    /// Whether `after` is what `before` becomes by taking in `payload`:
    /// a snapshot or a diff goes to the presence engine, a change goes to
    /// the callbacks that accept it, anything else changes nothing.
    pub open spec fn dispatched(before: &Self, payload: Payload, after: &Self) -> bool {
        &&& after.topic() == before.topic()
        &&& after.kinds() == before.kinds()
        &&& after.criteria() == before.criteria()
        &&& match payload {
            Payload::PresenceState(raw) => {
                &&& after.engine().snapshot_taken(&before.engine(), raw.keys(), raw_model(raw))
                &&& after.journal() == before.journal()
            },
            Payload::PresenceDiff(raw) => {
                &&& after.engine().diff_taken(
                    &before.engine(),
                    raw.joins.keys(),
                    raw_model(raw.joins),
                    raw.leaves.keys(),
                    raw_model(raw.leaves),
                )
                &&& after.journal() == before.journal()
            },
            Payload::Change(change) => {
                &&& after.engine() == before.engine()
                &&& after.journal() == before.journal() + cdc_fan_out(
                    before.kinds(),
                    before.criteria(),
                    before.kinds().len() as int,
                    change,
                )
            },
            Payload::Other => {
                &&& after.engine() == before.engine()
                &&& after.journal() == before.journal()
            },
        }
    }

    /// A channel for `topic` with no callbacks and nobody present.
    pub fn new(topic: String) -> (channel: Self)
        ensures
            channel.is_fresh(topic@),
    {
        let channel = RealtimeChannel {
            topic,
            presence: RealtimePresence::new(),
            registrations: Vec::new(),
            journal: Ghost(Seq::empty()),
        };
        assert(channel.kinds() =~= Seq::<PostgresChangesEvent>::empty());
        assert(channel.criteria() =~= Seq::<CdcMessageFilter>::empty());
        assert(channel.handlers() =~= Seq::<H>::empty());
        channel
    }

    /// The topic.
    pub fn topic_name(&self) -> (topic: &String)
        ensures
            topic@ == self.topic(),
    {
        &self.topic
    }

    /// Registers `callback` for changes of kind `event` that `criteria`
    /// accept, behind every callback registered before.
    pub fn on_cdc(&mut self, event: PostgresChangesEvent, criteria: CdcMessageFilter, callback: H)
        ensures
            final(self).topic() == old(self).topic(),
            final(self).engine() == old(self).engine(),
            final(self).journal() == old(self).journal(),
            final(self).kinds() == old(self).kinds().push(event),
            final(self).criteria() == old(self).criteria().push(criteria),
            final(self).handlers() == old(self).handlers().push(callback),
    {
        self.registrations.push(CdcRegistration { kind: event, criteria, callback });
        assert(self.kinds() =~= old(self).kinds().push(event));
        assert(self.criteria() =~= old(self).criteria().push(criteria));
        assert(self.handlers() =~= old(self).handlers().push(callback));
    }

    /// The join request for this channel: its topic, and for every
    /// registration, in order, the kind and the criteria it asks for.
    /// Nothing is awaited and the channel does not change.
    pub fn subscribe(&self) -> (request: JoinRequest)
        ensures
            request.topic@ == self.topic(),
            request.postgres_changes@.len() == self.kinds().len(),
            forall|i: int|
                0 <= i < self.kinds().len() ==> (#[trigger] request.postgres_changes@[i]).event
                    == self.kinds()[i],
            forall|i: int|
                0 <= i < self.kinds().len() ==> (#[trigger] request.postgres_changes@[i]).criteria
                    == self.criteria()[i],
    {
        let mut asked: Vec<PostgresChange> = Vec::new();
        let mut i: usize = 0;
        while i < self.registrations.len()
            invariant
                i <= self.registrations.len(),
                asked@.len() == i,
                forall|j: int| 0 <= j < i ==> (#[trigger] asked@[j]).event == self.kinds()[j],
                forall|j: int| 0 <= j < i ==> (#[trigger] asked@[j]).criteria == self.criteria()[j],
            decreases self.registrations.len() - i,
        {
            let registration = &self.registrations[i];
            asked.push(
                PostgresChange { event: registration.kind, criteria: registration.criteria.clone() },
            );
            i += 1;
        }
        JoinRequest { topic: self.topic.clone(), postgres_changes: asked }
    }

    /// Hands `change` to every callback whose registration accepts it, in
    /// the order of registration.
    fn route_change(&mut self, change: &CdcChange)
        ensures
            final(self).topic() == old(self).topic(),
            final(self).engine() == old(self).engine(),
            final(self).kinds() == old(self).kinds(),
            final(self).criteria() == old(self).criteria(),
            final(self).journal() == old(self).journal() + cdc_fan_out(
                old(self).kinds(),
                old(self).criteria(),
                old(self).kinds().len() as int,
                *change,
            ),
    {
        let n = self.registrations.len();
        let mut k: usize = 0;
        assert(self.journal() + Seq::<CdcDelivery>::empty() =~= self.journal());
        while k < n
            invariant
                k <= n,
                n == self.registrations.len(),
                self.topic() == old(self).topic(),
                self.engine() == old(self).engine(),
                self.kinds() == old(self).kinds(),
                self.criteria() == old(self).criteria(),
                self.journal() == old(self).journal() + cdc_fan_out(
                    old(self).kinds(),
                    old(self).criteria(),
                    k as int,
                    *change,
                ),
            decreases n - k,
        {
            let ghost kinds = self.kinds();
            let ghost criteria = self.criteria();
            assert(kinds[k as int] == self.registrations[k as int].kind);
            assert(criteria[k as int] == self.registrations[k as int].criteria);
            if accepts(self.registrations[k].kind, &self.registrations[k].criteria, change) {
                self.registrations[k].callback.call(change);
                proof {
                    self.journal@ = self.journal@.push(CdcDelivery { slot: k as int, change: *change });
                }
            }
            proof {
                assert(self.kinds() =~= kinds);
                assert(self.criteria() =~= criteria);
                assert(self.journal() =~= old(self).journal() + cdc_fan_out(
                    kinds,
                    criteria,
                    k + 1,
                    *change,
                ));
            }
            k += 1;
        }
    }

    /// Takes in the body of one inbound frame.
    pub fn dispatch(&mut self, payload: Payload)
        ensures
            Self::dispatched(old(self), payload, final(self)),
    {
        match payload {
            Payload::PresenceState(raw) => {
                let snapshot = PresenceState::from_raw(raw);
                self.presence.sync(snapshot);
            },
            Payload::PresenceDiff(raw) => {
                let diff = PresenceDiff::from_raw(raw);
                self.presence.sync_diff(diff);
            },
            Payload::Change(change) => {
                self.route_change(&change);
            },
            Payload::Other => {},
        }
    }
}

} // verus!
