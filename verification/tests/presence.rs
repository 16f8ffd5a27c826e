use realtime_rs::ordered_map::OrderedMap;
use realtime_rs::sync::presence_diff::{PresenceDiff, RawPresenceDiff};
use realtime_rs::sync::presence_state::{
    clone_data, clone_refs, extend_refs, refs_from_metas, PresenceMeta, PresenceMetas,
    PresenceRefs, PresenceState, RawPresenceState, StateData,
};
use realtime_rs::sync::realtime_presence::{PresenceCallback, PresenceEvent, RealtimePresence};
use serde_json::Value;
use std::cell::RefCell;
use std::rc::Rc;

type Flat = Vec<(String, Vec<(String, Vec<(String, Value)>)>)>;

fn s(text: &str) -> String {
    text.to_string()
}

fn text(value: &str) -> Value {
    Value::String(value.to_string())
}

fn data(pairs: &[(&str, &str)]) -> StateData {
    let mut out = OrderedMap::new();
    for (key, value) in pairs {
        out.insert(s(key), text(value));
    }
    out
}

fn refs(list: &[(&str, &[(&str, &str)])]) -> PresenceRefs {
    let mut out = OrderedMap::new();
    for (phx_ref, pairs) in list {
        out.insert(s(phx_ref), data(pairs));
    }
    out
}

fn state(list: &[(&str, &[(&str, &[(&str, &str)])])]) -> PresenceState {
    let mut out = PresenceState::new();
    for (id, inner) in list {
        out.insert(s(id), refs(inner));
    }
    out
}

fn flat_data(data: &StateData) -> Vec<(String, Value)> {
    (0..data.len()).map(|i| (data.key_at(i).clone(), data.value_at(i).clone())).collect()
}

fn flat_refs(refs: &PresenceRefs) -> Vec<(String, Vec<(String, Value)>)> {
    (0..refs.len()).map(|i| (refs.key_at(i).clone(), flat_data(refs.value_at(i)))).collect()
}

fn flat(state: &PresenceState) -> Flat {
    (0..state.len()).map(|i| (state.id_at(i).clone(), flat_refs(state.refs_at(i)))).collect()
}

fn meta(phx_ref: &str, pairs: &[(&str, &str)]) -> PresenceMeta {
    PresenceMeta { phx_ref: s(phx_ref), state_data: data(pairs) }
}

fn raw(list: Vec<(&str, Vec<PresenceMeta>)>) -> RawPresenceState {
    let mut out = OrderedMap::new();
    for (id, metas) in list {
        out.insert(s(id), PresenceMetas { metas });
    }
    out
}

#[derive(Debug, Clone, PartialEq)]
struct Seen {
    who: &'static str,
    id: String,
    current: Flat,
    payload: Flat,
}

struct Recorder {
    who: &'static str,
    log: Rc<RefCell<Vec<Seen>>>,
}

impl PresenceCallback for Recorder {
    fn call(&mut self, id: String, current: PresenceState, payload: PresenceState) {
        self.log.borrow_mut().push(Seen {
            who: self.who,
            id,
            current: flat(&current),
            payload: flat(&payload),
        });
    }
}

fn recorder(who: &'static str, log: &Rc<RefCell<Vec<Seen>>>) -> Recorder {
    Recorder { who, log: log.clone() }
}

fn names(log: &Rc<RefCell<Vec<Seen>>>) -> Vec<(&'static str, String)> {
    log.borrow().iter().map(|seen| (seen.who, seen.id.clone())).collect()
}

#[test]
fn sync_into_empty_state_takes_the_snapshot_and_calls_sync_once() {
    let log = Rc::new(RefCell::new(Vec::new()));
    let mut presence = RealtimePresence::new();
    presence.add_callback(PresenceEvent::Sync, recorder("sync", &log));
    let snapshot = PresenceState::from_raw(raw(vec![("u1", vec![meta("r1", &[("name", "a")])])]));
    presence.sync(snapshot);
    let expected = flat(&state(&[("u1", &[("r1", &[("name", "a")])])]));
    assert_eq!(flat(&presence.state), expected);
    assert_eq!(
        *log.borrow(),
        vec![Seen { who: "sync", id: s("u1"), current: vec![], payload: expected }]
    );
}

#[test]
fn sync_to_empty_snapshot_clears_state_with_one_leave_and_no_join() {
    let log = Rc::new(RefCell::new(Vec::new()));
    let mut presence = RealtimePresence::new();
    presence.state = state(&[("u1", &[("r1", &[("name", "a")])])]);
    presence.add_callback(PresenceEvent::Join, recorder("join", &log));
    presence.add_callback(PresenceEvent::Leave, recorder("leave", &log));
    presence.sync(PresenceState::new());
    assert_eq!(presence.state.len(), 0);
    assert_eq!(flat(&presence.state), Flat::new());
    assert_eq!(names(&log), vec![("leave", s("u1"))]);
}

#[test]
fn join_callbacks_run_in_registration_order_once_each() {
    let log = Rc::new(RefCell::new(Vec::new()));
    let mut presence = RealtimePresence::new();
    presence.add_callback(PresenceEvent::Join, recorder("A", &log));
    presence.add_callback(PresenceEvent::Leave, recorder("L", &log));
    presence.add_callback(PresenceEvent::Join, recorder("B", &log));
    presence.add_callback(PresenceEvent::Sync, recorder("S", &log));
    presence.add_callback(PresenceEvent::Join, recorder("C", &log));
    let diff = PresenceDiff::new(state(&[("u1", &[("r1", &[])])]), PresenceState::new());
    presence.sync_diff(diff);
    assert_eq!(names(&log), vec![("A", s("u1")), ("B", s("u1")), ("C", s("u1"))]);
}

#[test]
fn callbacks_go_participant_by_participant() {
    let log = Rc::new(RefCell::new(Vec::new()));
    let mut presence = RealtimePresence::new();
    presence.add_callback(PresenceEvent::Join, recorder("A", &log));
    presence.add_callback(PresenceEvent::Join, recorder("B", &log));
    let diff = PresenceDiff::new(
        state(&[("u1", &[("r1", &[])]), ("u2", &[("r2", &[])])]),
        PresenceState::new(),
    );
    presence.sync_diff(diff);
    assert_eq!(
        names(&log),
        vec![("A", s("u1")), ("B", s("u1")), ("A", s("u2")), ("B", s("u2"))]
    );
}

#[test]
fn sync_diff_hands_the_state_before_and_the_joins_to_both_kinds() {
    let log = Rc::new(RefCell::new(Vec::new()));
    let mut presence = RealtimePresence::new();
    presence.state = state(&[("u1", &[("r1", &[("name", "a")])]), ("u2", &[("r2", &[])])]);
    let before = flat(&presence.state);
    presence.add_callback(PresenceEvent::Join, recorder("join", &log));
    presence.add_callback(PresenceEvent::Leave, recorder("leave", &log));
    let joins = state(&[("u3", &[("r3", &[("name", "c")])])]);
    let leaves = state(&[("u1", &[("r1", &[("name", "a")])])]);
    let joined = flat(&joins);
    let after = flat(presence.sync_diff(PresenceDiff::new(joins, leaves)));
    assert_eq!(
        after,
        flat(&state(&[("u2", &[("r2", &[])]), ("u3", &[("r3", &[("name", "c")])])]))
    );
    assert_eq!(
        *log.borrow(),
        vec![
            Seen { who: "join", id: s("u3"), current: before.clone(), payload: joined.clone() },
            Seen { who: "leave", id: s("u1"), current: before, payload: joined },
        ]
    );
}

#[test]
fn sync_callbacks_get_the_state_before_and_after() {
    let log = Rc::new(RefCell::new(Vec::new()));
    let mut presence = RealtimePresence::new();
    presence.state = state(&[("u1", &[("r1", &[])])]);
    let before = flat(&presence.state);
    presence.add_callback(PresenceEvent::Sync, recorder("sync", &log));
    presence.sync(state(&[("u1", &[("r1", &[])]), ("u2", &[("r2", &[("k", "v")])])]));
    let after = flat(&state(&[("u1", &[("r1", &[])]), ("u2", &[("r2", &[("k", "v")])])]));
    assert_eq!(flat(&presence.state), after);
    assert_eq!(
        *log.borrow(),
        vec![
            Seen { who: "sync", id: s("u1"), current: before.clone(), payload: after.clone() },
            Seen { who: "sync", id: s("u2"), current: before, payload: after },
        ]
    );
}

#[test]
fn track_and_untrack_callbacks_are_never_called_by_sync() {
    let log = Rc::new(RefCell::new(Vec::new()));
    let mut presence = RealtimePresence::new();
    presence.add_callback(PresenceEvent::Track, recorder("track", &log));
    presence.add_callback(PresenceEvent::Untrack, recorder("untrack", &log));
    presence.sync(state(&[("u1", &[("r1", &[])])]));
    presence.sync(PresenceState::new());
    assert!(log.borrow().is_empty());
}

#[test]
fn events_without_callbacks_are_no_error() {
    let mut presence: RealtimePresence<Recorder> = RealtimePresence::default();
    presence.sync(state(&[("u1", &[("r1", &[])])]));
    assert_eq!(flat(&presence.state), flat(&state(&[("u1", &[("r1", &[])])])));
    presence.sync_diff(PresenceDiff::new(PresenceState::new(), state(&[("u1", &[])])));
    assert_eq!(presence.state.len(), 0);
}

#[test]
fn empty_diff_changes_nothing() {
    let mut presence: RealtimePresence<Recorder> = RealtimePresence::new();
    presence.state = state(&[
        ("u2", &[("r3", &[("k", "v")])]),
        ("u1", &[("r1", &[("name", "a")]), ("r2", &[])]),
    ]);
    let before = flat(&presence.state);
    presence.sync_diff(PresenceDiff::new(PresenceState::new(), PresenceState::new()));
    assert_eq!(flat(&presence.state), before);
}

#[test]
fn leave_removes_the_whole_participant_entry() {
    let mut presence: RealtimePresence<Recorder> = RealtimePresence::new();
    presence.state = state(&[("p", &[("r", &[])]), ("q", &[("r1", &[]), ("r2", &[])])]);
    let leaves = state(&[("p", &[("r", &[])]), ("q", &[("r1", &[])])]);
    presence.sync_diff(PresenceDiff::new(PresenceState::new(), leaves));
    assert!(!presence.state.contains_id(&s("p")));
    assert!(!presence.state.contains_id(&s("q")));
    assert_eq!(presence.state.len(), 0);
}

#[test]
fn participant_in_leaves_and_joins_comes_back_with_the_joins() {
    let mut presence: RealtimePresence<Recorder> = RealtimePresence::new();
    presence.state = state(&[("p", &[("r", &[])])]);
    let diff = PresenceDiff::new(state(&[("p", &[("r2", &[])])]), state(&[("p", &[("r", &[])])]));
    presence.sync_diff(diff);
    assert_eq!(flat(&presence.state), flat(&state(&[("p", &[("r2", &[])])])));
}

#[test]
fn join_extends_and_does_not_replace() {
    let mut presence: RealtimePresence<Recorder> = RealtimePresence::new();
    presence.state = state(&[("p", &[("r1", &[("name", "a")])])]);
    let joins = state(&[("p", &[("r2", &[("name", "b")])])]);
    presence.sync_diff(PresenceDiff::new(joins, PresenceState::new()));
    let p = presence.state.get(&s("p")).expect("p stays");
    assert_eq!(flat_refs(p), flat_refs(&refs(&[("r1", &[("name", "a")]), ("r2", &[("name", "b")])])));
}

#[test]
fn joining_reference_overwrites_the_data_of_one_it_names() {
    let mut presence: RealtimePresence<Recorder> = RealtimePresence::new();
    presence.state = state(&[("p", &[("r1", &[("name", "a")]), ("r2", &[("name", "b")])])]);
    let joins = state(&[("p", &[("r1", &[("name", "z")])])]);
    presence.sync_diff(PresenceDiff::new(joins, PresenceState::new()));
    assert_eq!(
        flat(&presence.state),
        flat(&state(&[("p", &[("r1", &[("name", "z")]), ("r2", &[("name", "b")])])]))
    );
}

#[test]
fn diff_from_is_a_set_difference_over_all_references() {
    let current = state(&[("u1", &[("r1", &[]), ("r2", &[])]), ("u2", &[("r3", &[])])]);
    let snapshot = state(&[("u1", &[("r1", &[]), ("r4", &[("k", "v")])]), ("u3", &[("r3", &[])])]);
    let diff = PresenceDiff::diff_from(&current, &snapshot);
    assert_eq!(flat(&diff.joins), flat(&state(&[("u1", &[("r4", &[("k", "v")])])])));
    assert_eq!(flat(&diff.leaves), flat(&state(&[("u1", &[("r2", &[])])])));
}

#[test]
fn reference_that_moves_to_another_participant_neither_joins_nor_leaves() {
    let mut presence: RealtimePresence<Recorder> = RealtimePresence::new();
    presence.state = state(&[("u1", &[("r1", &[])])]);
    let snapshot = state(&[("u2", &[("r1", &[])])]);
    let diff = PresenceDiff::diff_from(&presence.state, &snapshot);
    assert_eq!(diff.joins.len(), 0);
    assert_eq!(diff.leaves.len(), 0);
    presence.sync(snapshot);
    assert_eq!(flat(&presence.state), flat(&state(&[("u1", &[("r1", &[])])])));
}

#[test]
fn sync_reaches_the_references_of_the_snapshot_when_shared_ones_stay() {
    let mut presence: RealtimePresence<Recorder> = RealtimePresence::new();
    presence.state = state(&[("u1", &[("r1", &[])]), ("u2", &[("r2", &[])])]);
    presence.sync(state(&[("u1", &[("r1", &[])]), ("u3", &[("r3", &[])])]));
    assert!(presence.state.has_ref(&s("r1")));
    assert!(presence.state.has_ref(&s("r3")));
    assert!(!presence.state.has_ref(&s("r2")));
    assert_eq!(
        flat(&presence.state),
        flat(&state(&[("u1", &[("r1", &[])]), ("u3", &[("r3", &[])])]))
    );
}

#[test]
fn sync_drops_a_participant_that_loses_one_of_its_references() {
    let mut presence: RealtimePresence<Recorder> = RealtimePresence::new();
    presence.state = state(&[("u1", &[("r1", &[]), ("r2", &[])])]);
    presence.sync(state(&[("u1", &[("r1", &[])])]));
    assert_eq!(presence.state.len(), 0);
    assert!(!presence.state.has_ref(&s("r1")));
}

#[test]
fn sync_with_the_same_snapshot_changes_nothing_and_joins_nobody() {
    let log = Rc::new(RefCell::new(Vec::new()));
    let mut presence = RealtimePresence::new();
    presence.state = state(&[("u1", &[("r1", &[("name", "a")])])]);
    presence.add_callback(PresenceEvent::Join, recorder("join", &log));
    presence.add_callback(PresenceEvent::Leave, recorder("leave", &log));
    presence.sync(state(&[("u1", &[("r1", &[("name", "a")])])]));
    assert_eq!(flat(&presence.state), flat(&state(&[("u1", &[("r1", &[("name", "a")])])])));
    assert!(log.borrow().is_empty());
}

#[test]
fn from_raw_turns_each_phx_ref_into_a_key() {
    let wire = raw(vec![
        ("abc", vec![meta("1", &[("foo", "bar")]), meta("2", &[("foo", "baz")])]),
        ("def", vec![meta("3", &[("foo", "baz")])]),
        ("nobody", vec![]),
    ]);
    let got = PresenceState::from_raw(wire);
    assert_eq!(
        flat(&got),
        flat(&state(&[
            ("abc", &[("1", &[("foo", "bar")]), ("2", &[("foo", "baz")])]),
            ("def", &[("3", &[("foo", "baz")])]),
            ("nobody", &[]),
        ]))
    );
}

#[test]
fn later_meta_with_the_same_phx_ref_wins() {
    let metas = vec![meta("1", &[("n", "old")]), meta("2", &[]), meta("1", &[("n", "new")])];
    let got = refs_from_metas(&metas);
    assert_eq!(flat_refs(&got), flat_refs(&refs(&[("1", &[("n", "new")]), ("2", &[])])));
}

#[test]
fn diff_from_raw_converts_both_sides() {
    let wire = RawPresenceDiff {
        joins: raw(vec![("u1", vec![meta("r1", &[("name", "a")])])]),
        leaves: raw(vec![("u2", vec![meta("r2", &[])])]),
    };
    let diff = PresenceDiff::from_raw(wire);
    assert_eq!(flat(&diff.joins), flat(&state(&[("u1", &[("r1", &[("name", "a")])])])));
    assert_eq!(flat(&diff.leaves), flat(&state(&[("u2", &[("r2", &[])])])));
}

#[test]
fn from_entries_takes_entries_in_order_and_the_later_wins() {
    let entries = vec![
        (s("u1"), refs(&[("r1", &[])])),
        (s("u2"), refs(&[("r2", &[])])),
        (s("u1"), refs(&[("r9", &[])])),
    ];
    let got = PresenceState::from_entries(entries);
    assert_eq!(flat(&got), flat(&state(&[("u1", &[("r9", &[])]), ("u2", &[("r2", &[])])])));
}

#[test]
fn delta_leaves_out_participants_without_a_fresh_reference() {
    let left = state(&[("u1", &[("r1", &[])]), ("u2", &[("r2", &[]), ("r3", &[])]), ("u3", &[])]);
    let right = state(&[("x", &[("r1", &[]), ("r3", &[])])]);
    assert_eq!(flat(&left.delta(&right)), flat(&state(&[("u2", &[("r2", &[])])])));
    assert_eq!(flat(&right.delta(&left)), Flat::new());
}

#[test]
fn has_ref_looks_under_every_participant() {
    let st = state(&[("u1", &[("r1", &[])]), ("u2", &[("r2", &[])])]);
    assert!(st.has_ref(&s("r2")));
    assert!(!st.has_ref(&s("u1")));
    assert!(!PresenceState::new().has_ref(&s("r1")));
}

#[test]
fn state_remove_and_remove_all_keep_the_order_of_the_rest() {
    let mut st = state(&[("a", &[]), ("b", &[]), ("c", &[]), ("d", &[])]);
    st.remove(&s("b"));
    assert_eq!(flat(&st), flat(&state(&[("a", &[]), ("c", &[]), ("d", &[])])));
    st.remove(&s("zz"));
    assert_eq!(st.len(), 3);
    st.remove_all(&state(&[("d", &[]), ("a", &[]), ("q", &[])]));
    assert_eq!(flat(&st), flat(&state(&[("c", &[])])));
}

#[test]
fn state_extend_appends_new_participants_in_order() {
    let mut st = state(&[("a", &[("r1", &[])])]);
    st.extend(&state(&[("z", &[("r5", &[])]), ("a", &[("r2", &[])]), ("b", &[])]));
    assert_eq!(
        flat(&st),
        flat(&state(&[("a", &[("r1", &[]), ("r2", &[])]), ("z", &[("r5", &[])]), ("b", &[])]))
    );
}

#[test]
fn state_apply_removes_then_merges() {
    let mut st = state(&[("a", &[("r1", &[])]), ("b", &[("r2", &[])])]);
    st.apply(&state(&[("c", &[("r3", &[])])]), &state(&[("a", &[])]));
    assert_eq!(flat(&st), flat(&state(&[("b", &[("r2", &[])]), ("c", &[("r3", &[])])])));
}

#[test]
fn clones_are_equal_and_independent() {
    let original = state(&[("u1", &[("r1", &[("name", "a"), ("n", "b")])])]);
    let mut copy = original.clone();
    assert_eq!(flat(&copy), flat(&original));
    copy.remove(&s("u1"));
    assert_eq!(original.len(), 1);
    let d = data(&[("k", "v")]);
    assert_eq!(flat_data(&clone_data(&d)), vec![(s("k"), text("v"))]);
    let r = refs(&[("r1", &[("k", "v")])]);
    assert_eq!(flat_refs(&clone_refs(&r)), flat_refs(&r));
}

#[test]
fn cloned_json_values_keep_their_shape() {
    let mut nested = serde_json::Map::new();
    nested.insert(s("n"), Value::from(3));
    nested.insert(s("list"), Value::Array(vec![Value::Null, Value::Bool(true)]));
    let mut d: StateData = OrderedMap::new();
    d.insert(s("obj"), Value::Object(nested.clone()));
    let copy = clone_data(&d);
    assert_eq!(copy.get(&s("obj")), Some(&Value::Object(nested)));
}

#[test]
fn extend_refs_lays_the_second_over_the_first() {
    let mut target = refs(&[("r1", &[("n", "a")]), ("r2", &[])]);
    extend_refs(&mut target, &refs(&[("r3", &[]), ("r1", &[("n", "z")])]));
    assert_eq!(flat_refs(&target), flat_refs(&refs(&[("r1", &[("n", "z")]), ("r2", &[]), ("r3", &[])])));
}

#[test]
fn ordered_map_keeps_first_insertion_order() {
    let mut m: OrderedMap<u32> = OrderedMap::new();
    assert_eq!(m.len(), 0);
    assert_eq!(m.insert(s("b"), 1), None);
    assert_eq!(m.insert(s("a"), 2), None);
    assert_eq!(m.insert(s("b"), 3), Some(1));
    assert_eq!(m.len(), 2);
    assert_eq!(m.key_at(0), "b");
    assert_eq!(*m.value_at(0), 3);
    assert_eq!(m.key_at(1), "a");
    assert_eq!(m.position(&s("a")), Some(1));
    assert_eq!(m.position(&s("c")), None);
    assert_eq!(m.get(&s("a")), Some(&2));
    assert_eq!(m.get(&s("c")), None);
    assert!(m.contains_key(&s("b")));
    assert!(!m.contains_key(&s("")));
}

#[test]
fn ordered_map_remove_hands_back_the_value() {
    let mut m: OrderedMap<u32> = OrderedMap::default();
    m.insert(s("a"), 1);
    m.insert(s("b"), 2);
    m.insert(s("c"), 3);
    assert_eq!(m.remove(&s("b")), Some(2));
    assert_eq!(m.remove(&s("b")), None);
    assert_eq!(m.len(), 2);
    assert_eq!(m.key_at(0), "a");
    assert_eq!(m.key_at(1), "c");
    let mut gone: OrderedMap<bool> = OrderedMap::new();
    gone.insert(s("c"), true);
    gone.insert(s("x"), false);
    m.remove_all(&gone);
    assert_eq!(m.len(), 1);
    assert_eq!(m.get(&s("a")), Some(&1));
    let copy = m.clone();
    assert_eq!(copy.len(), 1);
    assert_eq!(copy.get(&s("a")), Some(&1));
}

#[test]
fn presence_events_compare_by_variant() {
    assert_eq!(PresenceEvent::Join, PresenceEvent::Join);
    assert_ne!(PresenceEvent::Join, PresenceEvent::Leave);
    assert_ne!(PresenceEvent::Track, PresenceEvent::Untrack);
    assert_eq!(format!("{:?}", PresenceEvent::Sync), "Sync");
}

#[test]
fn participant_without_references_neither_joins_nor_leaves() {
    let log = Rc::new(RefCell::new(Vec::new()));
    let mut presence = RealtimePresence::new();
    presence.add_callback(PresenceEvent::Join, recorder("join", &log));
    presence.add_callback(PresenceEvent::Leave, recorder("leave", &log));
    presence.state = state(&[("idle", &[])]);
    presence.sync(state(&[("ghost", &[])]));
    assert_eq!(flat(&presence.state), flat(&state(&[("idle", &[])])));
    presence.sync(PresenceState::new());
    assert_eq!(flat(&presence.state), flat(&state(&[("idle", &[])])));
    assert!(log.borrow().is_empty());
}

#[test]
fn first_snapshot_leaves_out_participants_that_hold_nothing() {
    let mut presence: RealtimePresence<Recorder> = RealtimePresence::new();
    presence.sync(state(&[("u1", &[("r1", &[("k", "v")])]), ("empty", &[]), ("u2", &[("r2", &[])])]));
    assert_eq!(
        flat(&presence.state),
        flat(&state(&[("u1", &[("r1", &[("k", "v")])]), ("u2", &[("r2", &[])])]))
    );
}

#[test]
fn defaults_are_empty() {
    let meta = PresenceMeta::default();
    assert_eq!(meta.phx_ref, "");
    assert_eq!(meta.state_data.len(), 0);
    assert!(PresenceMetas::default().metas.is_empty());
    assert_eq!(PresenceState::default().len(), 0);
    let presence: RealtimePresence<Recorder> = RealtimePresence::default();
    assert_eq!(presence.state.len(), 0);
}

#[test]
fn presence_types_are_reachable_beside_the_engine() {
    let snapshot = realtime_rs::sync::realtime_presence::PresenceState::new();
    let diff = realtime_rs::sync::realtime_presence::PresenceDiff::new(
        snapshot.clone(),
        realtime_rs::sync::realtime_presence::PresenceState::default(),
    );
    let mut presence: realtime_rs::sync::realtime_presence::RealtimePresence<Recorder> =
        realtime_rs::sync::realtime_presence::RealtimePresence::new();
    assert_eq!(presence.sync_diff(diff).len(), 0);
    let metas = realtime_rs::sync::realtime_presence::PresenceMetas { metas: vec![] };
    assert!(metas.metas.is_empty());
}
