//! Request encoding: every variant's frame decodes back to the documented
//! type tag and field values.

use northstar_rcon_client::codec::FrameVariant;
use northstar_rcon_client::inner_client::{encode_request_frame, get_message_from_slice, Request};
use northstar_rcon_client::message::{
    REQUEST_ID_SENTINEL, REQUEST_TYPE_AUTH, REQUEST_TYPE_ENABLE_CONSOLE_LOGS,
    REQUEST_TYPE_EXECCOMMAND, REQUEST_TYPE_SETVALUE,
};
use northstar_rcon_client::wire::{parse_wire_message, WireMessage};

fn decode_frame(frame: &[u8]) -> WireMessage {
    let (body, rest) = get_message_from_slice(frame).expect("whole frame");
    assert!(rest.is_empty());
    parse_wire_message(body).expect("parseable body")
}

#[test]
fn auth_request_round_trips() {
    let frame = encode_request_frame(
        Request::Auth { pass: "hunter2" },
        FrameVariant::LengthPrefixed,
    );
    let msg = decode_frame(&frame);
    assert_eq!(msg.id, Some(REQUEST_ID_SENTINEL));
    assert_eq!(msg.typ, Some(REQUEST_TYPE_AUTH));
    assert_eq!(msg.buf.as_deref(), Some(b"hunter2".as_slice()));
    assert_eq!(msg.val, None);
}

#[test]
fn set_value_request_round_trips() {
    let frame = encode_request_frame(
        Request::SetValue { var: "ns_should_return_to_lobby", val: "0" },
        FrameVariant::LengthPrefixed,
    );
    let msg = decode_frame(&frame);
    assert_eq!(msg.id, Some(REQUEST_ID_SENTINEL));
    assert_eq!(msg.typ, Some(REQUEST_TYPE_SETVALUE));
    assert_eq!(msg.buf.as_deref(), Some(b"ns_should_return_to_lobby".as_slice()));
    assert_eq!(msg.val.as_deref(), Some(b"0".as_slice()));
}

#[test]
fn exec_command_request_round_trips() {
    let frame = encode_request_frame(
        Request::ExecCommand { cmd: "map mp_glitch" },
        FrameVariant::LengthPrefixed,
    );
    let msg = decode_frame(&frame);
    assert_eq!(msg.id, Some(REQUEST_ID_SENTINEL));
    assert_eq!(msg.typ, Some(REQUEST_TYPE_EXECCOMMAND));
    assert_eq!(msg.buf.as_deref(), Some(b"map mp_glitch".as_slice()));
    assert_eq!(msg.val, None);
}

#[test]
fn enable_console_logs_request_round_trips() {
    let frame = encode_request_frame(Request::EnableConsoleLogs, FrameVariant::LengthPrefixed);
    let msg = decode_frame(&frame);
    assert_eq!(msg.id, Some(REQUEST_ID_SENTINEL));
    assert_eq!(msg.typ, Some(REQUEST_TYPE_ENABLE_CONSOLE_LOGS));
    assert_eq!(msg.buf, None);
    assert_eq!(msg.val, None);
}

#[test]
fn empty_command_text_is_preserved() {
    let frame = encode_request_frame(
        Request::ExecCommand { cmd: "" },
        FrameVariant::LengthPrefixed,
    );
    let msg = decode_frame(&frame);
    assert_eq!(msg.buf.as_deref(), Some(b"".as_slice()));
}

#[test]
fn terminated_request_frame_ends_with_sentinel() {
    let frame = encode_request_frame(
        Request::ExecCommand { cmd: "status" },
        FrameVariant::TerminatorDelimited,
    );
    assert_eq!(*frame.last().unwrap(), northstar_rcon_client::codec::FRAME_TERMINATOR);
    let msg = parse_wire_message(&frame[..frame.len() - 1]).expect("parseable body");
    assert_eq!(msg.typ, Some(REQUEST_TYPE_EXECCOMMAND));
    assert_eq!(msg.buf.as_deref(), Some(b"status".as_slice()));
}

#[test]
fn get_message_from_slice_waits_for_whole_body() {
    assert!(get_message_from_slice(&[0, 0]).is_none());
    assert!(get_message_from_slice(&[0, 0, 0, 5, 1, 2]).is_none());
    let (body, rest) = get_message_from_slice(&[0, 0, 0, 2, 9, 8, 7]).unwrap();
    assert_eq!(body, &[9, 8]);
    assert_eq!(rest, &[7]);
}
