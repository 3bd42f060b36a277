use http_source::backoff::Backoff;
use http_source::session::{
    message_text, InboundMessage, SessionAction, SessionEvent, SessionState, WebSocketSession,
};

fn active_session(subscriptions: Vec<String>) -> WebSocketSession {
    let mut s = WebSocketSession::new(subscriptions, Backoff::with_policy(100, 1000, Some(3)));
    assert_eq!(s.step(SessionEvent::Start), SessionAction::Connect);
    s
}

#[test]
fn ping_failure_reconnects_without_losing_earlier_messages() {
    let mut s = active_session(vec![]);
    assert_eq!(s.step(SessionEvent::Connected), SessionAction::Idle);
    assert_eq!(s.current_state(), SessionState::Active);
    let first = s.step(SessionEvent::Inbound(InboundMessage::Text("one".to_string())));
    let second = s.step(SessionEvent::Inbound(InboundMessage::Binary(b"two".to_vec())));
    assert_eq!(first, SessionAction::Emit("one".to_string()));
    assert_eq!(second, SessionAction::Emit("two".to_string()));
    assert_eq!(s.step(SessionEvent::PingTick), SessionAction::Ping);
    assert_eq!(s.step(SessionEvent::PingFailed), SessionAction::Connect);
    assert_eq!(s.current_state(), SessionState::Connecting);
    assert_eq!(s.step(SessionEvent::Connected), SessionAction::Idle);
    assert_eq!(s.current_state(), SessionState::Active);
}

#[test]
fn subscriptions_are_sent_in_order_after_each_handshake() {
    let mut s = active_session(vec!["a".to_string(), "b".to_string()]);
    assert_eq!(s.step(SessionEvent::Connected), SessionAction::Send("a".to_string()));
    assert_eq!(s.step(SessionEvent::SubscriptionSent), SessionAction::Send("b".to_string()));
    assert_eq!(s.step(SessionEvent::SubscriptionSent), SessionAction::Idle);
    assert_eq!(s.current_state(), SessionState::Active);
    assert_eq!(s.step(SessionEvent::StreamEnded), SessionAction::Connect);
    assert_eq!(s.step(SessionEvent::Connected), SessionAction::Send("a".to_string()));
}

#[test]
fn failed_connects_back_off_then_give_up() {
    let mut s = active_session(vec!["sub".to_string()]);
    assert_eq!(s.step(SessionEvent::ConnectFailed), SessionAction::ConnectAfter(100));
    assert_eq!(s.step(SessionEvent::Connected), SessionAction::Send("sub".to_string()));
    assert_eq!(s.step(SessionEvent::SendFailed), SessionAction::ConnectAfter(200));
    assert_eq!(s.step(SessionEvent::ConnectFailed), SessionAction::ConnectAfter(400));
    assert_eq!(s.step(SessionEvent::ConnectFailed), SessionAction::GiveUp);
    assert_eq!(s.current_state(), SessionState::GivenUp);
    assert_eq!(s.step(SessionEvent::Start), SessionAction::Idle);
}

#[test]
fn a_record_resets_the_backoff() {
    let mut s = active_session(vec![]);
    assert_eq!(s.step(SessionEvent::ConnectFailed), SessionAction::ConnectAfter(100));
    assert_eq!(s.step(SessionEvent::ConnectFailed), SessionAction::ConnectAfter(200));
    s.step(SessionEvent::Connected);
    s.step(SessionEvent::Inbound(InboundMessage::Text("x".to_string())));
    s.step(SessionEvent::StreamEnded);
    assert_eq!(s.step(SessionEvent::ConnectFailed), SessionAction::ConnectAfter(100));
}

#[test]
fn control_frames_and_bad_binary_are_dropped() {
    let mut s = active_session(vec![]);
    s.step(SessionEvent::Connected);
    assert_eq!(s.step(SessionEvent::Inbound(InboundMessage::Ping)), SessionAction::Idle);
    assert_eq!(s.step(SessionEvent::Inbound(InboundMessage::Pong)), SessionAction::Idle);
    assert_eq!(
        s.step(SessionEvent::Inbound(InboundMessage::Binary(vec![0xFF, 0xFE]))),
        SessionAction::Idle
    );
    assert_eq!(s.current_state(), SessionState::Active);
    assert_eq!(s.step(SessionEvent::Inbound(InboundMessage::Close)), SessionAction::Connect);
    assert_eq!(s.current_state(), SessionState::Connecting);
}

#[test]
fn read_failure_ends_active_and_reconnects() {
    let mut s = active_session(vec![]);
    s.step(SessionEvent::Connected);
    assert_eq!(
        s.step(SessionEvent::Inbound(InboundMessage::Text("kept".to_string()))),
        SessionAction::Emit("kept".to_string())
    );
    assert_eq!(s.step(SessionEvent::ReadFailed), SessionAction::Connect);
    assert_eq!(s.current_state(), SessionState::Connecting);
}

#[test]
fn binary_utf8_becomes_text() {
    assert_eq!(
        message_text(InboundMessage::Binary("h\u{e9}".as_bytes().to_vec())),
        Some("h\u{e9}".to_string())
    );
    assert_eq!(message_text(InboundMessage::Binary(vec![0xC3])), None);
    assert_eq!(message_text(InboundMessage::Text("t".to_string())), Some("t".to_string()));
    assert_eq!(message_text(InboundMessage::Frame), None);
}
