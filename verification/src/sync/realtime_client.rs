//! The connection: its state machine, its channels by topic, and the
//! non-blocking step that takes in what one read from the transport brought.
//!
//! The transport itself is not here. Whoever owns it performs the
//! handshake, reads without blocking, decodes, and hands the outcome to
//! `connect` and `next_message`.

use crate::message::payload::{Incoming, Payload};
use crate::sync::realtime_channel::{CdcCallback, RealtimeChannel};
use crate::sync::realtime_presence::PresenceCallback;
use vstd::prelude::*;

verus! {

/// The state of the connection.
#[derive(Clone, Copy, Debug, PartialEq, Eq, Hash, Structural)]
pub enum ConnectionState {
    Connecting,
    Open,
    Closing,
    Closed,
}

/// What can happen to a connection.
#[derive(Clone, Copy, Debug, PartialEq, Eq, Hash, Structural)]
pub enum ConnectionEvent {
    /// The handshake succeeded.
    HandshakeAccepted,
    /// The handshake failed, in the transport or in the protocol.
    HandshakeRefused,
    /// The caller asked to close.
    CloseRequested,
    /// The close that the caller asked for is done.
    CloseCompleted,
    /// The transport is closed or delivered a frame that cannot be decoded.
    TransportLost,
}

/// Why `connect` failed.
#[derive(Clone, Copy, Debug, PartialEq, Eq, Hash, Structural)]
pub enum ConnectError {
    /// The handshake failed. The connection is closed; nothing is retried.
    HandshakeFailed,
    /// The connection is not waiting for a handshake.
    NotConnecting,
}

/// Why `channel` failed.
#[derive(Clone, Copy, Debug, PartialEq, Eq, Hash, Structural)]
pub enum ChannelError {
    /// The connection is not open.
    NotOpen,
    /// A channel for the topic is registered already. It is left as it is.
    TopicTaken,
}

/// Why `next_message` dispatched nothing.
#[derive(Clone, Copy, Debug, PartialEq, Eq, Hash, Structural)]
pub enum NextMessageError {
    /// No frame is waiting. Nothing changed; poll again.
    WouldBlock,
    /// The transport was found closed. The connection is closed now.
    TransportClosed,
    /// A frame could not be decoded. The connection is closed now.
    CorruptFrame,
    /// The connection is closed: nothing is read any more.
    ConnectionClosed,
    /// The connection has not been opened yet.
    NotConnected,
    /// A frame arrived for a topic that has no channel. It is dropped.
    NoChannel,
}

/// Where a connection in `state` goes when `event` happens. An event that
/// does not apply in a state leaves it as it is.
pub open spec fn transition(state: ConnectionState, event: ConnectionEvent) -> ConnectionState {
    match (state, event) {
        (ConnectionState::Connecting, ConnectionEvent::HandshakeAccepted) => ConnectionState::Open,
        (ConnectionState::Connecting, ConnectionEvent::HandshakeRefused) => ConnectionState::Closed,
        (ConnectionState::Open, ConnectionEvent::CloseRequested) => ConnectionState::Closing,
        (ConnectionState::Closing, ConnectionEvent::CloseCompleted) => ConnectionState::Closed,
        (ConnectionState::Open, ConnectionEvent::TransportLost) => ConnectionState::Closed,
        (ConnectionState::Closing, ConnectionEvent::TransportLost) => ConnectionState::Closed,
        _ => state,
    }
}

/// How far along its life a connection is.
pub open spec fn rank(state: ConnectionState) -> int {
    match state {
        ConnectionState::Connecting => 0,
        ConnectionState::Open => 1,
        ConnectionState::Closing => 2,
        ConnectionState::Closed => 3,
    }
}

/// A closed connection stays closed, whatever happens.
pub proof fn law_closed_is_terminal(event: ConnectionEvent)
    ensures
        transition(ConnectionState::Closed, event) == ConnectionState::Closed,
{
}

/// A connection never goes back: from `Connecting` through `Open` and
/// `Closing` to `Closed`, states may be skipped but not revisited.
pub proof fn law_connection_only_advances(state: ConnectionState, event: ConnectionEvent)
    ensures
        rank(state) <= rank(transition(state, event)),
{
}

impl ConnectionState {
    /// Where the connection goes when `event` happens.
    pub fn on(self, event: ConnectionEvent) -> (next: ConnectionState)
        ensures
            next == transition(self, event),
    {
        match (self, event) {
            (ConnectionState::Connecting, ConnectionEvent::HandshakeAccepted) => ConnectionState::Open,
            (ConnectionState::Connecting, ConnectionEvent::HandshakeRefused) => ConnectionState::Closed,
            (ConnectionState::Open, ConnectionEvent::CloseRequested) => ConnectionState::Closing,
            (ConnectionState::Closing, ConnectionEvent::CloseCompleted) => ConnectionState::Closed,
            (ConnectionState::Open, ConnectionEvent::TransportLost) => ConnectionState::Closed,
            (ConnectionState::Closing, ConnectionEvent::TransportLost) => ConnectionState::Closed,
            (state, _) => state,
        }
    }
}

/// The position of the first of `topics` that equals `topic`, if any.
pub open spec fn first_with_topic(topics: Seq<Seq<char>>, topic: Seq<char>) -> Option<int> {
    if topics.contains(topic) {
        Some(choose|i: int| 0 <= i < topics.len() && topics[i] == topic && forall|j: int| 0 <= j < i ==> topics[j] != topic)
    } else {
        None
    }
}

/// One connection and its channels.
pub struct RealtimeClient<P: PresenceCallback, H: CdcCallback> {
    pub status: ConnectionState,
    url: String,
    access_token: String,
    channels: Vec<RealtimeChannel<P, H>>,
}

impl<P: PresenceCallback, H: CdcCallback> RealtimeClient<P, H> {
    /// The state of the connection.
    pub closed spec fn state(&self) -> ConnectionState {
        self.status
    }

    /// The channels, in the order of their registration.
    pub closed spec fn channels(&self) -> Seq<RealtimeChannel<P, H>> {
        self.channels@
    }

    /// The topics of the channels, in the order of their registration.
    pub open spec fn topics(&self) -> Seq<Seq<char>> {
        Seq::new(self.channels().len(), |i: int| self.channels()[i].topic())
    }

    /// The endpoint.
    pub closed spec fn endpoint(&self) -> Seq<char> {
        self.url@
    }

    /// The credential.
    pub closed spec fn credential(&self) -> Seq<char> {
        self.access_token@
    }

    /// A client for the endpoint `url` that will present `access_token`.
    /// It is waiting for the handshake and has no channels.
    pub fn new(url: String, access_token: String) -> (client: Self)
        ensures
            client.state() == ConnectionState::Connecting,
            client.channels() == Seq::<RealtimeChannel<P, H>>::empty(),
            client.endpoint() == url@,
            client.credential() == access_token@,
    {
        RealtimeClient { status: ConnectionState::Connecting, url, access_token, channels: Vec::new() }
    }

    /// The channel for a new topic. Fails, and changes nothing, if the
    /// connection is not open or if the topic has a channel already.
    pub fn channel(&mut self, topic: String) -> (result: Result<&mut RealtimeChannel<P, H>, ChannelError>)
        ensures
            match result {
                Ok(channel) => {
                    &&& old(self).state() == ConnectionState::Open
                    &&& !old(self).topics().contains(topic@)
                    &&& channel.is_fresh(topic@)
                    &&& final(self).state() == ConnectionState::Open
                    &&& final(self).endpoint() == old(self).endpoint()
                    &&& final(self).credential() == old(self).credential()
                    &&& final(self).channels() == old(self).channels().push(*final(channel))
                },
                Err(ChannelError::NotOpen) => {
                    &&& old(self).state() != ConnectionState::Open
                    &&& *final(self) == *old(self)
                },
                Err(ChannelError::TopicTaken) => {
                    &&& old(self).state() == ConnectionState::Open
                    &&& old(self).topics().contains(topic@)
                    &&& *final(self) == *old(self)
                },
            },
    {
        if self.status != ConnectionState::Open {
            return Err(ChannelError::NotOpen);
        }
        if self.find(&topic).is_some() {
            return Err(ChannelError::TopicTaken);
        }
        self.channels.push(RealtimeChannel::new(topic));
        let last = self.channels.len() - 1;
        Ok(&mut self.channels[last])
    }

    /// Whether `after` is what `before` becomes when only the state of the
    /// connection changes, to `state`.
    pub open spec fn moved_to(before: &Self, state: ConnectionState, after: &Self) -> bool {
        &&& after.state() == state
        &&& after.channels() == before.channels()
        &&& after.endpoint() == before.endpoint()
        &&& after.credential() == before.credential()
    }

    /// Whether `after` is what `before` becomes when the channel at
    /// position `i` takes in `payload` and nothing else changes.
    pub open spec fn routed(before: &Self, i: int, payload: Payload, after: &Self) -> bool {
        &&& after.state() == before.state()
        &&& after.endpoint() == before.endpoint()
        &&& after.credential() == before.credential()
        &&& after.channels().len() == before.channels().len()
        &&& forall|j: int|
            0 <= j < before.channels().len() && j != i ==> #[trigger] after.channels()[j]
                == before.channels()[j]
        &&& RealtimeChannel::dispatched(&before.channels()[i], payload, &after.channels()[i])
    }

    /// Takes in the outcome of the handshake. A client that is waiting for
    /// it becomes open if the handshake was accepted and closed if not;
    /// any other client is left as it is.
    pub fn connect(&mut self, accepted: bool) -> (result: Result<(), ConnectError>)
        ensures
            old(self).state() == ConnectionState::Connecting && accepted ==> result.is_ok()
                && Self::moved_to(old(self), ConnectionState::Open, final(self)),
            old(self).state() == ConnectionState::Connecting && !accepted ==> result == Err::<
                (),
                ConnectError,
            >(ConnectError::HandshakeFailed) && Self::moved_to(
                old(self),
                ConnectionState::Closed,
                final(self),
            ),
            old(self).state() != ConnectionState::Connecting ==> result == Err::<(), ConnectError>(
                ConnectError::NotConnecting,
            ) && *final(self) == *old(self),
    {
        if self.status != ConnectionState::Connecting {
            return Err(ConnectError::NotConnecting);
        }
        if accepted {
            self.status = self.status.on(ConnectionEvent::HandshakeAccepted);
            Ok(())
        } else {
            self.status = self.status.on(ConnectionEvent::HandshakeRefused);
            Err(ConnectError::HandshakeFailed)
        }
    }

    /// Takes in the caller's wish to close: an open connection is closing
    /// from now on. In any other state nothing changes.
    pub fn close(&mut self)
        ensures
            Self::moved_to(
                old(self),
                transition(old(self).state(), ConnectionEvent::CloseRequested),
                final(self),
            ),
    {
        self.status = self.status.on(ConnectionEvent::CloseRequested);
    }

    /// Takes in that the close is done: a closing connection is closed
    /// from now on. In any other state nothing changes.
    pub fn close_completed(&mut self)
        ensures
            Self::moved_to(
                old(self),
                transition(old(self).state(), ConnectionEvent::CloseCompleted),
                final(self),
            ),
    {
        self.status = self.status.on(ConnectionEvent::CloseCompleted);
    }

    /// The non-blocking step: takes in what one attempt to read brought,
    /// and dispatches at most one frame.
    ///
    /// A closed connection reports that it is closed, and one that was
    /// never opened that it is not connected; neither changes. Otherwise:
    /// with nothing waiting, the result is `WouldBlock` and nothing
    /// changes; a closed transport or a corrupt frame closes the
    /// connection and is reported; a frame goes to the first channel of its
    /// topic, which takes it in before this function returns the topic; a
    /// frame for a topic without a channel is dropped and reported.
    pub fn next_message(&mut self, incoming: Incoming) -> (result: Result<String, NextMessageError>)
        ensures
            match (old(self).state(), incoming) {
                (ConnectionState::Closed, _) => {
                    &&& result == Err::<String, NextMessageError>(NextMessageError::ConnectionClosed)
                    &&& *final(self) == *old(self)
                },
                (ConnectionState::Connecting, _) => {
                    &&& result == Err::<String, NextMessageError>(NextMessageError::NotConnected)
                    &&& *final(self) == *old(self)
                },
                (_, Incoming::Nothing) => {
                    &&& result == Err::<String, NextMessageError>(NextMessageError::WouldBlock)
                    &&& *final(self) == *old(self)
                },
                (_, Incoming::Closed) => {
                    &&& result == Err::<String, NextMessageError>(NextMessageError::TransportClosed)
                    &&& Self::moved_to(old(self), ConnectionState::Closed, final(self))
                },
                (_, Incoming::Corrupt) => {
                    &&& result == Err::<String, NextMessageError>(NextMessageError::CorruptFrame)
                    &&& Self::moved_to(old(self), ConnectionState::Closed, final(self))
                },
                (_, Incoming::Frame { topic, payload }) => match first_with_topic(
                    old(self).topics(),
                    topic@,
                ) {
                    Some(i) => {
                        &&& result == Ok::<String, NextMessageError>(topic)
                        &&& Self::routed(old(self), i, payload, final(self))
                    },
                    None => {
                        &&& result == Err::<String, NextMessageError>(NextMessageError::NoChannel)
                        &&& *final(self) == *old(self)
                    },
                },
            },
    {
        match self.status {
            ConnectionState::Closed => {
                return Err(NextMessageError::ConnectionClosed);
            },
            ConnectionState::Connecting => {
                return Err(NextMessageError::NotConnected);
            },
            _ => {},
        }
        match incoming {
            Incoming::Nothing => Err(NextMessageError::WouldBlock),
            Incoming::Closed => {
                self.status = self.status.on(ConnectionEvent::TransportLost);
                Err(NextMessageError::TransportClosed)
            },
            Incoming::Corrupt => {
                self.status = self.status.on(ConnectionEvent::TransportLost);
                Err(NextMessageError::CorruptFrame)
            },
            Incoming::Frame { topic, payload } => {
                match self.find(&topic) {
                    Some(i) => {
                        self.channels[i].dispatch(payload);
                        Ok(topic)
                    },
                    None => Err(NextMessageError::NoChannel),
                }
            },
        }
    }

    /// The endpoint.
    pub fn url(&self) -> (url: &String)
        ensures
            url@ == self.endpoint(),
    {
        &self.url
    }

    /// The credential.
    pub fn access_token(&self) -> (token: &String)
        ensures
            token@ == self.credential(),
    {
        &self.access_token
    }

    /// The first channel for `topic`, if there is one.
    pub fn get_channel(&self, topic: &String) -> (found: Option<&RealtimeChannel<P, H>>)
        ensures
            match found {
                Some(channel) => first_with_topic(self.topics(), topic@).is_some()
                    && *channel == self.channels()[first_with_topic(self.topics(), topic@).unwrap()],
                None => first_with_topic(self.topics(), topic@).is_none(),
            },
    {
        match self.find(topic) {
            Some(i) => Some(&self.channels[i]),
            None => None,
        }
    }

    /// The first channel for `topic`, if there is one, to register
    /// callbacks on. Whatever is done to it, the other channels and the
    /// connection stay as they are.
    pub fn get_channel_mut(&mut self, topic: &String) -> (found: Option<&mut RealtimeChannel<P, H>>)
        ensures
            match found {
                Some(channel) => {
                    let i = first_with_topic(old(self).topics(), topic@).unwrap();
                    &&& first_with_topic(old(self).topics(), topic@).is_some()
                    &&& *channel == old(self).channels()[i]
                    &&& final(self).state() == old(self).state()
                    &&& final(self).channels() == old(self).channels().update(i, *final(channel))
                },
                None => first_with_topic(old(self).topics(), topic@).is_none() && *final(self)
                    == *old(self),
            },
    {
        match self.find(topic) {
            Some(i) => Some(&mut self.channels[i]),
            None => None,
        }
    }

    /// The position of the first channel for `topic`, if there is one.
    pub fn find(&self, topic: &String) -> (found: Option<usize>)
        ensures
            match found {
                Some(i) => first_with_topic(self.topics(), topic@) == Some(i as int) && i
                    < self.channels().len(),
                None => first_with_topic(self.topics(), topic@).is_none(),
            },
    {
        let mut i: usize = 0;
        while i < self.channels.len()
            invariant
                i <= self.channels.len(),
                forall|j: int| 0 <= j < i ==> self.topics()[j] != topic@,
            decreases self.channels.len() - i,
        {
            if *self.channels[i].topic_name() == *topic {
                assert(self.topics()[i as int] == topic@);
                return Some(i);
            }
            i += 1;
        }
        None
    }
}

} // verus!
