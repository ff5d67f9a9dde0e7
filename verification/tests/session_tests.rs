//! Handshake and read-loop scenarios, driven through the pure engine the
//! way the I/O layer drives it: feed server bytes, poll, decide.

use northstar_rcon_client::client::{auth_step, log_step, AuthError, AuthStep};
use northstar_rcon_client::cli::CliAuthError;
use northstar_rcon_client::codec::{encode_frame, FrameVariant};
use northstar_rcon_client::inner_client::{
    event_of, PollResponse, Response, ResponseReceiver,
};
use northstar_rcon_client::message::{
    AuthError as MsgAuthError, Event, RESPONSE_TYPE_AUTH, RESPONSE_TYPE_CONSOLE_LOG,
};
use northstar_rcon_client::wire::{encode_message, WireMessage};
use northstar_rcon_client::Error;

fn auth_reply_frame(text: &[u8]) -> Vec<u8> {
    let msg = WireMessage {
        id: None,
        typ: Some(RESPONSE_TYPE_AUTH),
        buf: Some(text.to_vec()),
        val: None,
    };
    encode_frame(&encode_message(&msg), FrameVariant::LengthPrefixed)
}

fn console_log_frame(text: &[u8]) -> Vec<u8> {
    let msg = WireMessage {
        id: None,
        typ: Some(RESPONSE_TYPE_CONSOLE_LOG),
        buf: Some(text.to_vec()),
        val: None,
    };
    encode_frame(&encode_message(&msg), FrameVariant::LengthPrefixed)
}

fn poll_one(rx: &mut ResponseReceiver) -> Response {
    match rx.poll() {
        PollResponse::Got(resp) => resp,
        other => panic!("expected a response, got {:?}", other),
    }
}

#[test]
fn wrong_password_is_a_retryable_rejection() {
    let mut rx = ResponseReceiver::new(FrameVariant::LengthPrefixed);
    rx.feed(&auth_reply_frame(b"Password incorrect"));
    let resp = poll_one(&mut rx);
    let step = auth_step(Ok(resp));
    assert_eq!(step, AuthStep::Fail(AuthError::InvalidPassword));
    // The connection stays usable: the caller may retry on the same receiver.
    assert!(!CliAuthError(MsgAuthError::InvalidPassword).is_fatal());
    rx.feed(&auth_reply_frame(b""));
    assert_eq!(auth_step(Ok(poll_one(&mut rx))), AuthStep::Success);
}

#[test]
fn banned_reply_is_terminal() {
    let mut rx = ResponseReceiver::new(FrameVariant::LengthPrefixed);
    rx.feed(&auth_reply_frame(b"Go away"));
    let step = auth_step(Ok(poll_one(&mut rx)));
    assert_eq!(step, AuthStep::Fail(AuthError::Banned));
    assert!(CliAuthError(MsgAuthError::Banned).is_fatal());
}

#[test]
fn unmatched_reply_text_means_accepted() {
    let mut rx = ResponseReceiver::new(FrameVariant::LengthPrefixed);
    rx.feed(&auth_reply_frame(b""));
    let step = auth_step(Ok(poll_one(&mut rx)));
    assert_eq!(step, AuthStep::Success);
}

#[test]
fn console_log_during_handshake_is_skipped() {
    let mut rx = ResponseReceiver::new(FrameVariant::LengthPrefixed);
    rx.feed(&console_log_frame(b"startup spam"));
    rx.feed(&auth_reply_frame(b""));
    // The handshake loop skips the log line and ends on the auth result.
    let first = auth_step(Ok(poll_one(&mut rx)));
    assert_eq!(first, AuthStep::Skip);
    let second = auth_step(Ok(poll_one(&mut rx)));
    assert_eq!(second, AuthStep::Success);
}

#[test]
fn unrecognized_response_type_is_skipped_silently() {
    // Type tag 0 is reserved and unused: the receiver must discard the
    // whole frame and still return the valid one behind it.
    let unknown = WireMessage { id: None, typ: Some(0), buf: Some(b"?".to_vec()), val: None };
    let mut bytes = encode_frame(&encode_message(&unknown), FrameVariant::LengthPrefixed);
    bytes.extend_from_slice(&console_log_frame(b"still here"));
    let mut rx = ResponseReceiver::new(FrameVariant::LengthPrefixed);
    rx.feed(&bytes);
    match poll_one(&mut rx) {
        Response::ConsoleLog { msg } => assert_eq!(msg, "still here"),
        other => panic!("expected the console log, got {:?}", other),
    }
}

#[test]
fn two_back_to_back_logs_arrive_in_order() {
    let mut bytes = console_log_frame(b"first");
    bytes.extend_from_slice(&console_log_frame(b"second"));
    let mut rx = ResponseReceiver::new(FrameVariant::LengthPrefixed);
    // One socket read delivered both frames at once.
    rx.feed(&bytes);
    match poll_one(&mut rx) {
        Response::ConsoleLog { msg } => assert_eq!(msg, "first"),
        other => panic!("expected a console log, got {:?}", other),
    }
    match poll_one(&mut rx) {
        Response::ConsoleLog { msg } => assert_eq!(msg, "second"),
        other => panic!("expected a console log, got {:?}", other),
    }
    assert!(matches!(rx.poll(), PollResponse::NeedData));
}

#[test]
fn pending_receive_surfaces_close_as_transport_error() {
    let mut rx = ResponseReceiver::new(FrameVariant::LengthPrefixed);
    // A partial frame is buffered when the peer goes away.
    rx.feed(&[0, 0, 0, 9, 1, 2]);
    assert!(matches!(rx.poll(), PollResponse::NeedData));
    // The I/O layer maps the closed socket to a transport error and hands
    // it to the handshake loop, which fails rather than hangs.
    let step = auth_step(Err(Error::Io));
    assert_eq!(step, AuthStep::Fail(AuthError::Fatal(Error::Io)));
    assert!(CliAuthError(MsgAuthError::Fatal(Error::Io)).is_fatal());
}

#[test]
fn log_step_returns_console_lines_and_skips_auth_replies() {
    let line = log_step(Response::ConsoleLog { msg: "fps 60".to_string() });
    assert_eq!(line.as_deref(), Some("fps 60"));
    assert_eq!(log_step(Response::Auth { res: Ok(()) }), None);
}

#[test]
fn event_of_keeps_console_logs_only() {
    let ev = event_of(Response::ConsoleLog { msg: "tick".to_string() });
    assert_eq!(ev, Some(Event::ConsoleLog { msg: "tick".to_string() }));
    assert_eq!(event_of(Response::Auth { res: Ok(()) }), None);
}

#[test]
fn invalid_utf8_console_payload_is_skipped() {
    let bad = WireMessage {
        id: None,
        typ: Some(RESPONSE_TYPE_CONSOLE_LOG),
        buf: Some(vec![0xFF, 0xFE]),
        val: None,
    };
    let mut bytes = encode_frame(&encode_message(&bad), FrameVariant::LengthPrefixed);
    bytes.extend_from_slice(&console_log_frame(b"clean"));
    let mut rx = ResponseReceiver::new(FrameVariant::LengthPrefixed);
    rx.feed(&bytes);
    match poll_one(&mut rx) {
        Response::ConsoleLog { msg } => assert_eq!(msg, "clean"),
        other => panic!("expected the clean line, got {:?}", other),
    }
}

#[test]
fn terminated_session_delivers_logs_with_embedded_sentinels() {
    let text = b"a\rb";
    let msg = WireMessage {
        id: None,
        typ: Some(RESPONSE_TYPE_CONSOLE_LOG),
        buf: Some(text.to_vec()),
        val: None,
    };
    let frame = encode_frame(&encode_message(&msg), FrameVariant::TerminatorDelimited);
    let mut rx = ResponseReceiver::new(FrameVariant::TerminatorDelimited);
    rx.feed(&frame);
    match poll_one(&mut rx) {
        Response::ConsoleLog { msg } => assert_eq!(msg, "a\rb"),
        other => panic!("expected the log line, got {:?}", other),
    }
}
