//! The WebSocket session manager as a state machine: the caller performs each action and
//! reports what happened as the next event.
use crate::backoff::Backoff;
use crate::metadata::utf8_text;
use vstd::prelude::*;
use vstd::utf8::{decode_utf8, valid_utf8};

verus! {


/// One message read from the socket.
#[derive(Debug, Clone, PartialEq, Eq)]
pub enum InboundMessage {
    Text(String),
    Binary(Vec<u8>),
    Ping,
    Pong,
    Close,
    /// A raw frame of no other kind.
    Frame,
}

/// The record text a message carries: text as is, binary data that is valid UTF-8 as its
/// text; nothing for invalid binary data and for control messages.
pub open spec fn inbound_text(m: InboundMessage) -> Option<Seq<char>> {
    match m {
        InboundMessage::Text(t) => Some(t@),
        InboundMessage::Binary(b) => if valid_utf8(b@) {
            Some(decode_utf8(b@))
        } else {
            None
        },
        _ => None,
    }
}

/// The record text of an inbound message, if it carries one.
pub fn message_text(message: InboundMessage) -> (r: Option<String>)
    ensures
        r matches Some(s) ==> inbound_text(message) == Some(s@),
        r is None ==> inbound_text(message) is None,
{
    match message {
        InboundMessage::Text(text) => Some(text),
        InboundMessage::Binary(data) => utf8_text(data),
        _ => None,
    }
}

/// Where a session stands.
#[derive(Debug, Clone, Copy, PartialEq, Eq, Structural)]
pub enum SessionState {
    /// No connection, none requested yet.
    Disconnected,
    /// A handshake was requested.
    Connecting,
    /// The subscription message at this index of the list is being sent.
    Subscribing(usize),
    /// Subscribed; inbound messages and ping ticks are handled.
    Active,
    /// The retry limit is used up; the session is over.
    GivenUp,
}

/// What happened since the last action.
#[derive(Debug, Clone, PartialEq, Eq)]
pub enum SessionEvent {
    /// The caller starts the session.
    Start,
    /// The handshake succeeded.
    Connected,
    /// The handshake failed.
    ConnectFailed,
    /// The requested subscription message was sent.
    SubscriptionSent,
    /// Sending a subscription message failed.
    SendFailed,
    /// A message was read from the socket.
    Inbound(InboundMessage),
    /// The ping interval elapsed.
    PingTick,
    /// Sending a ping failed.
    PingFailed,
    /// Reading from the socket failed.
    ReadFailed,
    /// The socket's inbound stream ended.
    StreamEnded,
}

/// What the caller is to do next.
#[derive(Debug, Clone, PartialEq, Eq)]
pub enum SessionAction {
    /// Open a connection now.
    Connect,
    /// Wait this many milliseconds, then open a connection.
    ConnectAfter(u64),
    /// Send this subscription message.
    Send(String),
    /// Hand this record text to the consumer.
    Emit(String),
    /// Send a ping frame.
    Ping,
    /// Nothing to do; wait for the next event.
    Idle,
    /// Stop: the retry limit is used up.
    GiveUp,
}

/// A WebSocket session: its state, the subscription messages sent after each handshake, and
/// the reconnect backoff.
pub struct WebSocketSession {
    state: SessionState,
    subscriptions: Vec<String>,
    backoff: Backoff,
}

impl WebSocketSession {
    pub closed spec fn state(&self) -> SessionState {
        self.state
    }

    pub closed spec fn subscriptions(&self) -> Seq<Seq<char>> {
        self.subscriptions@.map_values(|s: String| s@)
    }

    pub closed spec fn backoff(&self) -> Backoff {
        self.backoff
    }

    /// A disconnected session that sends `subscriptions`, in order, after each handshake and
    /// reconnects under `backoff`.
    pub fn new(subscriptions: Vec<String>, backoff: Backoff) -> (r: Self)
        ensures
            r.state() == SessionState::Disconnected,
            r.subscriptions() == subscriptions@.map_values(|s: String| s@),
            r.backoff() == backoff,
    {
        WebSocketSession { state: SessionState::Disconnected, subscriptions, backoff }
    }

    /// The state of the session.
    pub fn current_state(&self) -> (r: SessionState)
        ensures
            r == self.state(),
    {
        self.state
    }

    /// The action after a failed handshake or send: retry after the backoff delay, or give up.
    fn retry(&mut self) -> (r: SessionAction)
        ensures
            final(self).subscriptions() == old(self).subscriptions(),
            old(self).backoff().next_outcome() matches Some(d) ==> final(self).state()
                == SessionState::Connecting && r == SessionAction::ConnectAfter(d as u64),
            old(self).backoff().next_outcome() is None ==> final(self).state()
                == SessionState::GivenUp && r == SessionAction::GiveUp,
            final(self).backoff().base() == old(self).backoff().base(),
            final(self).backoff().max() == old(self).backoff().max(),
            final(self).backoff().max_retries() == old(self).backoff().max_retries(),
            final(self).backoff().attempt() == old(self).backoff().attempt_after_next(),
    {
        match self.backoff.next() {
            Some(delay) => {
                self.state = SessionState::Connecting;
                SessionAction::ConnectAfter(delay)
            },
            None => {
                self.state = SessionState::GivenUp;
                SessionAction::GiveUp
            },
        }
    }

    /// The action that sends subscription message `index`.
    fn send_subscription(&self, index: usize) -> (r: SessionAction)
        requires
            index < self.subscriptions().len(),
        ensures
            r matches SessionAction::Send(m) && m@ == self.subscriptions()[index as int],
    {
        SessionAction::Send(self.subscriptions[index].clone())
    }

    /// Takes the next event and returns the action to perform.
    pub fn step(&mut self, event: SessionEvent) -> (r: SessionAction)
        ensures
            final(self).subscriptions() == old(self).subscriptions(),
            final(self).backoff().base() == old(self).backoff().base(),
            final(self).backoff().max() == old(self).backoff().max(),
            final(self).backoff().max_retries() == old(self).backoff().max_retries(),
            match (old(self).state(), event) {
                (SessionState::Disconnected, SessionEvent::Start) => {
                    &&& final(self).state() == SessionState::Connecting
                    &&& r == SessionAction::Connect
                    &&& final(self).backoff() == old(self).backoff()
                },
                (SessionState::Connecting, SessionEvent::Connected) => final(self).backoff()
                    == old(self).backoff() && if old(self).subscriptions().len() == 0 {
                    final(self).state() == SessionState::Active && r == SessionAction::Idle
                } else {
                    &&& final(self).state() == SessionState::Subscribing(0)
                    &&& r matches SessionAction::Send(m) && m@ == old(self).subscriptions()[0]
                },
                (SessionState::Subscribing(k), SessionEvent::SubscriptionSent) => final(
                    self).backoff() == old(self).backoff() && if k + 1 < old(
                    self).subscriptions().len() {
                    &&& final(self).state() == SessionState::Subscribing((k + 1) as usize)
                    &&& r matches SessionAction::Send(m) && m@ == old(self).subscriptions()[k + 1]
                } else {
                    final(self).state() == SessionState::Active && r == SessionAction::Idle
                },
                (SessionState::Connecting, SessionEvent::ConnectFailed) | (
                    SessionState::Subscribing(_),
                    SessionEvent::SendFailed,
                ) => final(self).backoff().attempt() == old(self).backoff().attempt_after_next()
                    && match old(self).backoff().next_outcome() {
                    Some(d) => final(self).state() == SessionState::Connecting && r
                        == SessionAction::ConnectAfter(d as u64),
                    None => final(self).state() == SessionState::GivenUp && r
                        == SessionAction::GiveUp,
                },
                (SessionState::Active, SessionEvent::Inbound(m)) => match inbound_text(m) {
                    Some(t) => {
                        &&& final(self).state() == SessionState::Active
                        &&& r matches SessionAction::Emit(s) && s@ == t
                        &&& final(self).backoff().attempt() == 0
                    },
                    None => final(self).backoff() == old(self).backoff() && if m
                        == InboundMessage::Close {
                        final(self).state() == SessionState::Connecting && r
                            == SessionAction::Connect
                    } else {
                        final(self).state() == SessionState::Active && r == SessionAction::Idle
                    },
                },
                (SessionState::Active, SessionEvent::PingTick) => {
                    &&& final(self).state() == SessionState::Active
                    &&& r == SessionAction::Ping
                    &&& final(self).backoff() == old(self).backoff()
                },
                (SessionState::Active, SessionEvent::PingFailed) | (
                    SessionState::Active,
                    SessionEvent::ReadFailed,
                ) | (SessionState::Active, SessionEvent::StreamEnded) => {
                    &&& final(self).state() == SessionState::Connecting
                    &&& r == SessionAction::Connect
                    &&& final(self).backoff() == old(self).backoff()
                },
                _ => {
                    &&& final(self).state() == old(self).state()
                    &&& r == SessionAction::Idle
                    &&& final(self).backoff() == old(self).backoff()
                },
            },
    {
        match (self.state, event) {
            (SessionState::Disconnected, SessionEvent::Start) => {
                self.state = SessionState::Connecting;
                SessionAction::Connect
            },
            (SessionState::Connecting, SessionEvent::Connected) => {
                if self.subscriptions.len() == 0 {
                    self.state = SessionState::Active;
                    SessionAction::Idle
                } else {
                    self.state = SessionState::Subscribing(0);
                    self.send_subscription(0)
                }
            },
            (SessionState::Subscribing(k), SessionEvent::SubscriptionSent) => {
                if k < self.subscriptions.len() && k + 1 < self.subscriptions.len() {
                    self.state = SessionState::Subscribing(k + 1);
                    self.send_subscription(k + 1)
                } else {
                    self.state = SessionState::Active;
                    SessionAction::Idle
                }
            },
            (SessionState::Connecting, SessionEvent::ConnectFailed) => self.retry(),
            (SessionState::Subscribing(_), SessionEvent::SendFailed) => self.retry(),
            (SessionState::Active, SessionEvent::Inbound(m)) => {
                let is_close = matches!(m, InboundMessage::Close);
                match message_text(m) {
                    Some(t) => {
                        self.backoff.reset();
                        SessionAction::Emit(t)
                    },
                    None => {
                        if is_close {
                            self.state = SessionState::Connecting;
                            SessionAction::Connect
                        } else {
                            SessionAction::Idle
                        }
                    },
                }
            },
            (SessionState::Active, SessionEvent::PingTick) => SessionAction::Ping,
            (SessionState::Active, SessionEvent::PingFailed) => {
                self.state = SessionState::Connecting;
                SessionAction::Connect
            },
            (SessionState::Active, SessionEvent::ReadFailed) => {
                self.state = SessionState::Connecting;
                SessionAction::Connect
            },
            (SessionState::Active, SessionEvent::StreamEnded) => {
                self.state = SessionState::Connecting;
                SessionAction::Connect
            },
            _ => SessionAction::Idle,
        }
    }
}

} // verus!
