use realtime_rs::message::cdc_message_filter::{accepts, CdcMessageFilter};
use realtime_rs::message::payload::{CdcChange, Incoming, Payload, PostgresChangesEvent};
use realtime_rs::ordered_map::OrderedMap;
use realtime_rs::sync::presence_diff::RawPresenceDiff;
use realtime_rs::sync::presence_state::{PresenceMeta, PresenceMetas, PresenceState, RawPresenceState};
use realtime_rs::sync::realtime_channel::{CdcCallback, RealtimeChannel};
use realtime_rs::sync::realtime_client::{
    ChannelError, ConnectError, ConnectionEvent, ConnectionState, NextMessageError, RealtimeClient,
};
use realtime_rs::sync::realtime_presence::{PresenceCallback, PresenceEvent};
use serde_json::Value;
use std::cell::RefCell;
use std::rc::Rc;

type Log = Rc<RefCell<Vec<String>>>;

struct Note {
    who: &'static str,
    log: Log,
}

impl PresenceCallback for Note {
    fn call(&mut self, id: String, _current: PresenceState, _payload: PresenceState) {
        self.log.borrow_mut().push(format!("{}:{}", self.who, id));
    }
}

impl CdcCallback for Note {
    fn call(&mut self, change: &CdcChange) {
        self.log.borrow_mut().push(format!("{}:{}.{}", self.who, change.schema, change.table));
    }
}

fn note(who: &'static str, log: &Log) -> Note {
    Note { who, log: log.clone() }
}

fn s(text: &str) -> String {
    text.to_string()
}

fn criteria(schema: &str, table: Option<&str>, filter: Option<&str>) -> CdcMessageFilter {
    CdcMessageFilter::new(s(schema), table.map(s), filter.map(s))
}

fn change(event: PostgresChangesEvent, schema: &str, table: &str, filter: Option<&str>) -> CdcChange {
    CdcChange { event, schema: s(schema), table: s(table), filter: filter.map(s), record: Value::Null }
}

fn raw_one(id: &str, phx_ref: &str) -> RawPresenceState {
    let mut raw = OrderedMap::new();
    raw.insert(
        s(id),
        PresenceMetas { metas: vec![PresenceMeta { phx_ref: s(phx_ref), state_data: OrderedMap::new() }] },
    );
    raw
}

fn open_client() -> RealtimeClient<Note, Note> {
    let mut client = RealtimeClient::new(s("ws://127.0.0.1:54321"), s("SECRET-REDACTED"));
    assert_eq!(client.connect(true), Ok(()));
    client
}

#[test]
fn new_client_is_connecting_and_keeps_endpoint_and_credential() {
    let client: RealtimeClient<Note, Note> = RealtimeClient::new(s("ws://host"), s("token"));
    assert_eq!(client.status, ConnectionState::Connecting);
    assert_eq!(client.url(), "ws://host");
    assert_eq!(client.access_token(), "token");
}

#[test]
fn accepted_handshake_opens_the_connection() {
    let mut client: RealtimeClient<Note, Note> = RealtimeClient::new(s("u"), s("t"));
    assert_eq!(client.connect(true), Ok(()));
    assert_eq!(client.status, ConnectionState::Open);
    assert_eq!(client.connect(true), Err(ConnectError::NotConnecting));
    assert_eq!(client.status, ConnectionState::Open);
}

#[test]
fn refused_handshake_closes_the_connection_for_good() {
    let mut client: RealtimeClient<Note, Note> = RealtimeClient::new(s("u"), s("t"));
    assert_eq!(client.connect(false), Err(ConnectError::HandshakeFailed));
    assert_eq!(client.status, ConnectionState::Closed);
    assert_eq!(client.connect(true), Err(ConnectError::NotConnecting));
    assert_eq!(client.status, ConnectionState::Closed);
}

#[test]
fn connection_states_follow_the_transition_table() {
    let connecting = ConnectionState::Connecting;
    let open = ConnectionState::Open;
    let closing = ConnectionState::Closing;
    let closed = ConnectionState::Closed;
    assert_eq!(connecting.on(ConnectionEvent::HandshakeAccepted), open);
    assert_eq!(connecting.on(ConnectionEvent::HandshakeRefused), closed);
    assert_eq!(connecting.on(ConnectionEvent::CloseRequested), connecting);
    assert_eq!(connecting.on(ConnectionEvent::TransportLost), connecting);
    assert_eq!(open.on(ConnectionEvent::CloseRequested), closing);
    assert_eq!(open.on(ConnectionEvent::TransportLost), closed);
    assert_eq!(open.on(ConnectionEvent::CloseCompleted), open);
    assert_eq!(open.on(ConnectionEvent::HandshakeAccepted), open);
    assert_eq!(closing.on(ConnectionEvent::CloseCompleted), closed);
    assert_eq!(closing.on(ConnectionEvent::TransportLost), closed);
    assert_eq!(closing.on(ConnectionEvent::CloseRequested), closing);
    for event in [
        ConnectionEvent::HandshakeAccepted,
        ConnectionEvent::HandshakeRefused,
        ConnectionEvent::CloseRequested,
        ConnectionEvent::CloseCompleted,
        ConnectionEvent::TransportLost,
    ] {
        assert_eq!(closed.on(event), closed);
    }
}

#[test]
fn caller_close_goes_through_closing_to_closed() {
    let mut client = open_client();
    client.close();
    assert_eq!(client.status, ConnectionState::Closing);
    assert_eq!(client.next_message(Incoming::Nothing), Err(NextMessageError::WouldBlock));
    client.close_completed();
    assert_eq!(client.status, ConnectionState::Closed);
    client.close();
    assert_eq!(client.status, ConnectionState::Closed);
}

#[test]
fn polling_with_nothing_waiting_would_block_and_changes_nothing() {
    let mut client = open_client();
    client.channel(s("room")).expect("open");
    for _ in 0..3 {
        assert_eq!(client.next_message(Incoming::Nothing), Err(NextMessageError::WouldBlock));
        assert_eq!(client.status, ConnectionState::Open);
    }
    assert!(client.get_channel(&s("room")).is_some());
}

#[test]
fn polling_before_the_handshake_reports_not_connected() {
    let mut client: RealtimeClient<Note, Note> = RealtimeClient::new(s("u"), s("t"));
    assert_eq!(client.next_message(Incoming::Nothing), Err(NextMessageError::NotConnected));
    assert_eq!(client.next_message(Incoming::Closed), Err(NextMessageError::NotConnected));
    assert_eq!(client.status, ConnectionState::Connecting);
}

#[test]
fn closed_transport_is_reported_once_and_then_the_connection_is_closed() {
    let mut client = open_client();
    assert_eq!(client.next_message(Incoming::Closed), Err(NextMessageError::TransportClosed));
    assert_eq!(client.status, ConnectionState::Closed);
    assert_eq!(client.next_message(Incoming::Nothing), Err(NextMessageError::ConnectionClosed));
    assert_eq!(client.next_message(Incoming::Closed), Err(NextMessageError::ConnectionClosed));
    assert_eq!(
        client.next_message(Incoming::Frame { topic: s("room"), payload: Payload::Other }),
        Err(NextMessageError::ConnectionClosed)
    );
    assert_eq!(client.status, ConnectionState::Closed);
}

#[test]
fn corrupt_frame_closes_the_connection() {
    let mut client = open_client();
    assert_eq!(client.next_message(Incoming::Corrupt), Err(NextMessageError::CorruptFrame));
    assert_eq!(client.status, ConnectionState::Closed);
    assert_eq!(client.next_message(Incoming::Corrupt), Err(NextMessageError::ConnectionClosed));
}

#[test]
fn channel_needs_an_open_connection() {
    let mut client: RealtimeClient<Note, Note> = RealtimeClient::new(s("u"), s("t"));
    assert_eq!(client.channel(s("room")).err(), Some(ChannelError::NotOpen));
    client.connect(true).expect("accepted");
    assert!(client.channel(s("room")).is_ok());
    client.close();
    assert_eq!(client.channel(s("other")).err(), Some(ChannelError::NotOpen));
}

#[test]
fn second_channel_for_a_topic_is_refused_and_the_first_keeps_its_callbacks() {
    let log: Log = Rc::new(RefCell::new(Vec::new()));
    let mut client = open_client();
    client.channel(s("room")).expect("new topic").on_cdc(
        PostgresChangesEvent::All,
        criteria("public", None, None),
        note("first", &log),
    );
    assert_eq!(client.channel(s("room")).err(), Some(ChannelError::TopicTaken));
    let frame = Incoming::Frame {
        topic: s("room"),
        payload: Payload::Change(change(PostgresChangesEvent::Insert, "public", "todos", None)),
    };
    assert_eq!(client.next_message(frame), Ok(s("room")));
    assert_eq!(*log.borrow(), vec![s("first:public.todos")]);
}

#[test]
fn frame_goes_to_the_channel_of_its_topic_only() {
    let log: Log = Rc::new(RefCell::new(Vec::new()));
    let mut client = open_client();
    client.channel(s("a")).expect("a").on_cdc(
        PostgresChangesEvent::All,
        criteria("public", None, None),
        note("a", &log),
    );
    client.channel(s("b")).expect("b").on_cdc(
        PostgresChangesEvent::All,
        criteria("public", None, None),
        note("b", &log),
    );
    let frame = Incoming::Frame {
        topic: s("b"),
        payload: Payload::Change(change(PostgresChangesEvent::Update, "public", "t", None)),
    };
    assert_eq!(client.next_message(frame), Ok(s("b")));
    assert_eq!(*log.borrow(), vec![s("b:public.t")]);
}

#[test]
fn frame_for_an_unknown_topic_is_dropped() {
    let mut client = open_client();
    client.channel(s("a")).expect("a");
    let frame = Incoming::Frame { topic: s("zzz"), payload: Payload::Other };
    assert_eq!(client.next_message(frame), Err(NextMessageError::NoChannel));
    assert_eq!(client.status, ConnectionState::Open);
}

#[test]
fn presence_frames_reach_the_presence_engine_of_the_channel() {
    let log: Log = Rc::new(RefCell::new(Vec::new()));
    let mut client = open_client();
    {
        let channel = client.channel(s("room")).expect("room");
        channel.presence.add_callback(PresenceEvent::Join, note("join", &log));
        channel.presence.add_callback(PresenceEvent::Leave, note("leave", &log));
        channel.presence.add_callback(PresenceEvent::Sync, note("sync", &log));
    }
    let snapshot = Incoming::Frame { topic: s("room"), payload: Payload::PresenceState(raw_one("u1", "r1")) };
    assert_eq!(client.next_message(snapshot), Ok(s("room")));
    assert_eq!(*log.borrow(), vec![s("join:u1"), s("sync:u1")]);
    log.borrow_mut().clear();
    let diff = Incoming::Frame {
        topic: s("room"),
        payload: Payload::PresenceDiff(RawPresenceDiff {
            joins: raw_one("u2", "r2"),
            leaves: raw_one("u1", "r1"),
        }),
    };
    assert_eq!(client.next_message(diff), Ok(s("room")));
    assert_eq!(*log.borrow(), vec![s("join:u2"), s("leave:u1")]);
    let channel = client.get_channel(&s("room")).expect("room");
    assert!(channel.presence.state.contains_id(&s("u2")));
    assert!(!channel.presence.state.contains_id(&s("u1")));
    assert_eq!(channel.presence.state.len(), 1);
}

#[test]
fn other_frames_are_routed_and_call_nobody() {
    let log: Log = Rc::new(RefCell::new(Vec::new()));
    let mut client = open_client();
    client.channel(s("room")).expect("room").on_cdc(
        PostgresChangesEvent::All,
        criteria("public", None, None),
        note("cdc", &log),
    );
    let frame = Incoming::Frame { topic: s("room"), payload: Payload::Other };
    assert_eq!(client.next_message(frame), Ok(s("room")));
    assert!(log.borrow().is_empty());
}

#[test]
fn get_channel_mut_finds_a_registered_channel() {
    let log: Log = Rc::new(RefCell::new(Vec::new()));
    let mut client = open_client();
    client.channel(s("room")).expect("room");
    assert!(client.get_channel_mut(&s("nope")).is_none());
    client.get_channel_mut(&s("room")).expect("room").on_cdc(
        PostgresChangesEvent::Delete,
        criteria("public", Some("todos"), None),
        note("late", &log),
    );
    assert_eq!(client.find(&s("room")), Some(0));
    assert_eq!(client.find(&s("nope")), None);
    let frame = Incoming::Frame {
        topic: s("room"),
        payload: Payload::Change(change(PostgresChangesEvent::Delete, "public", "todos", None)),
    };
    assert_eq!(client.next_message(frame), Ok(s("room")));
    assert_eq!(*log.borrow(), vec![s("late:public.todos")]);
}

#[test]
fn change_reaches_every_accepting_callback_in_registration_order() {
    let log: Log = Rc::new(RefCell::new(Vec::new()));
    let mut channel: RealtimeChannel<Note, Note> = RealtimeChannel::new(s("room"));
    channel.on_cdc(PostgresChangesEvent::All, criteria("public", None, None), note("any", &log));
    channel.on_cdc(PostgresChangesEvent::Insert, criteria("public", Some("todos"), None), note("ins", &log));
    channel.on_cdc(PostgresChangesEvent::Delete, criteria("public", Some("todos"), None), note("del", &log));
    channel.on_cdc(PostgresChangesEvent::All, criteria("public", Some("users"), None), note("users", &log));
    channel.on_cdc(PostgresChangesEvent::All, criteria("private", None, None), note("private", &log));
    channel.on_cdc(
        PostgresChangesEvent::Insert,
        criteria("public", Some("todos"), Some("id=eq.1")),
        note("filtered", &log),
    );
    channel.on_cdc(PostgresChangesEvent::Insert, criteria("public", None, None), note("ins2", &log));
    channel.dispatch(Payload::Change(change(PostgresChangesEvent::Insert, "public", "todos", None)));
    assert_eq!(*log.borrow(), vec![s("any:public.todos"), s("ins:public.todos"), s("ins2:public.todos")]);
    log.borrow_mut().clear();
    channel.dispatch(Payload::Change(change(
        PostgresChangesEvent::Insert,
        "public",
        "todos",
        Some("id=eq.1"),
    )));
    assert_eq!(
        *log.borrow(),
        vec![
            s("any:public.todos"),
            s("ins:public.todos"),
            s("filtered:public.todos"),
            s("ins2:public.todos")
        ]
    );
}

#[test]
fn criteria_accept_by_schema_table_and_filter() {
    let insert = change(PostgresChangesEvent::Insert, "public", "todos", Some("id=eq.1"));
    assert!(criteria("public", None, None).accepts(&insert));
    assert!(criteria("public", Some("todos"), None).accepts(&insert));
    assert!(criteria("public", Some("todos"), Some("id=eq.1")).accepts(&insert));
    assert!(criteria("public", None, Some("id=eq.1")).accepts(&insert));
    assert!(!criteria("other", None, None).accepts(&insert));
    assert!(!criteria("public", Some("users"), None).accepts(&insert));
    assert!(!criteria("public", Some("todos"), Some("id=eq.2")).accepts(&insert));
    let plain = change(PostgresChangesEvent::Insert, "public", "todos", None);
    assert!(!criteria("public", None, Some("id=eq.1")).accepts(&plain));
    assert!(!CdcMessageFilter::default().accepts(&plain));
    assert!(CdcMessageFilter::default().accepts(&change(PostgresChangesEvent::Insert, "", "t", None)));
}

#[test]
fn registration_accepts_by_kind_and_criteria() {
    let update = change(PostgresChangesEvent::Update, "public", "todos", None);
    let public = criteria("public", None, None);
    assert!(accepts(PostgresChangesEvent::All, &public, &update));
    assert!(accepts(PostgresChangesEvent::Update, &public, &update));
    assert!(!accepts(PostgresChangesEvent::Insert, &public, &update));
    assert!(!accepts(PostgresChangesEvent::Delete, &public, &update));
    assert!(!accepts(PostgresChangesEvent::All, &criteria("x", None, None), &update));
}

#[test]
fn subscribe_names_the_topic_and_every_registration_in_order() {
    let log: Log = Rc::new(RefCell::new(Vec::new()));
    let mut channel: RealtimeChannel<Note, Note> = RealtimeChannel::new(s("room"));
    assert_eq!(channel.topic_name(), "room");
    assert!(channel.subscribe().postgres_changes.is_empty());
    channel.on_cdc(PostgresChangesEvent::All, criteria("public", Some("todos"), None), note("a", &log));
    channel.on_cdc(PostgresChangesEvent::Delete, criteria("private", None, Some("id=eq.7")), note("b", &log));
    let request = channel.subscribe();
    assert_eq!(request.topic, "room");
    assert_eq!(request.postgres_changes.len(), 2);
    assert_eq!(request.postgres_changes[0].event, PostgresChangesEvent::All);
    assert_eq!(request.postgres_changes[0].criteria.schema, "public");
    assert_eq!(request.postgres_changes[0].criteria.table, Some(s("todos")));
    assert_eq!(request.postgres_changes[0].criteria.filter, None);
    assert_eq!(request.postgres_changes[1].event, PostgresChangesEvent::Delete);
    assert_eq!(request.postgres_changes[1].criteria.schema, "private");
    assert_eq!(request.postgres_changes[1].criteria.table, None);
    assert_eq!(request.postgres_changes[1].criteria.filter, Some(s("id=eq.7")));
    assert!(log.borrow().is_empty());
}

#[test]
fn filter_clone_keeps_all_fields() {
    let original = criteria("public", Some("todos"), Some("id=eq.1"));
    let copy = original.clone();
    assert_eq!(copy.schema, "public");
    assert_eq!(copy.table, Some(s("todos")));
    assert_eq!(copy.filter, Some(s("id=eq.1")));
}
