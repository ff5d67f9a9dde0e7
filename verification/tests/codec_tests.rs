//! Frame encoding and extraction, under both framings.

use northstar_rcon_client::codec::{
    encode_frame, FrameReceiver, FrameVariant, PollMsg, FRAME_TERMINATOR,
};
use northstar_rcon_client::wire::{encode_message, parse_wire_message, WireMessage};

fn console_log_message(text: &[u8]) -> WireMessage {
    WireMessage {
        id: None,
        typ: Some(northstar_rcon_client::message::RESPONSE_TYPE_CONSOLE_LOG),
        buf: Some(text.to_vec()),
        val: None,
    }
}

#[test]
fn length_prefixed_frame_has_big_endian_header() {
    let frame = encode_frame(b"abc", FrameVariant::LengthPrefixed);
    assert_eq!(frame, vec![0, 0, 0, 3, b'a', b'b', b'c']);
}

#[test]
fn terminated_frame_appends_sentinel() {
    let frame = encode_frame(b"abc", FrameVariant::TerminatorDelimited);
    assert_eq!(frame, vec![b'a', b'b', b'c', FRAME_TERMINATOR]);
}

#[test]
fn whole_frame_extracts_message() {
    let msg = console_log_message(b"hello");
    let frame = encode_frame(&encode_message(&msg), FrameVariant::LengthPrefixed);
    let mut rx = FrameReceiver::new(FrameVariant::LengthPrefixed);
    rx.feed(&frame);
    match rx.poll() {
        PollMsg::Msg(got) => assert_eq!(got, msg),
        other => panic!("expected a message, got {:?}", other),
    }
}

#[test]
fn single_byte_deliveries_decode_like_one_delivery() {
    let msg = console_log_message(b"split me");
    let frame = encode_frame(&encode_message(&msg), FrameVariant::LengthPrefixed);

    let mut whole = FrameReceiver::new(FrameVariant::LengthPrefixed);
    whole.feed(&frame);
    let expected = match whole.poll() {
        PollMsg::Msg(m) => m,
        other => panic!("expected a message, got {:?}", other),
    };

    let mut rx = FrameReceiver::new(FrameVariant::LengthPrefixed);
    for (i, byte) in frame.iter().enumerate() {
        rx.feed(&[*byte]);
        if i + 1 < frame.len() {
            assert!(matches!(rx.poll(), PollMsg::NeedData));
        }
    }
    match rx.poll() {
        PollMsg::Msg(got) => assert_eq!(got, expected),
        other => panic!("expected a message, got {:?}", other),
    }
}

#[test]
fn single_byte_deliveries_decode_terminated_frames_too() {
    let msg = console_log_message(b"one at a time");
    let frame = encode_frame(&encode_message(&msg), FrameVariant::TerminatorDelimited);
    let mut rx = FrameReceiver::new(FrameVariant::TerminatorDelimited);
    for (i, byte) in frame.iter().enumerate() {
        rx.feed(&[*byte]);
        if i + 1 < frame.len() {
            assert!(matches!(rx.poll(), PollMsg::NeedData));
        }
    }
    match rx.poll() {
        PollMsg::Msg(got) => assert_eq!(got, msg),
        other => panic!("expected a message, got {:?}", other),
    }
}

#[test]
fn embedded_sentinel_byte_survives_terminated_framing() {
    // The body contains the sentinel value as ordinary content; the decoder
    // must not cut the frame there, because the bytes before it do not parse.
    let text = b"first line\rsecond line";
    assert!(text.contains(&FRAME_TERMINATOR));
    let msg = console_log_message(text);
    let body = encode_message(&msg);
    assert!(body.contains(&FRAME_TERMINATOR));
    let frame = encode_frame(&body, FrameVariant::TerminatorDelimited);
    let mut rx = FrameReceiver::new(FrameVariant::TerminatorDelimited);
    rx.feed(&frame);
    match rx.poll() {
        PollMsg::Msg(got) => assert_eq!(got.buf.as_deref(), Some(text.as_slice())),
        other => panic!("expected a message, got {:?}", other),
    }
}

#[test]
fn stray_leading_sentinels_are_discarded() {
    let msg = console_log_message(b"after strays");
    let mut bytes = vec![FRAME_TERMINATOR, FRAME_TERMINATOR];
    bytes.extend_from_slice(&encode_frame(&encode_message(&msg), FrameVariant::TerminatorDelimited));
    let mut rx = FrameReceiver::new(FrameVariant::TerminatorDelimited);
    rx.feed(&bytes);
    match rx.poll() {
        PollMsg::Msg(got) => assert_eq!(got, msg),
        other => panic!("expected a message, got {:?}", other),
    }
}

#[test]
fn sentinel_valued_length_byte_does_not_cut_the_frame() {
    // A 13-byte payload puts the sentinel value into the encoded length
    // byte of the string field; the scan must step over it.
    let text = b"thirteen byte";
    assert_eq!(text.len(), FRAME_TERMINATOR as usize);
    let msg = console_log_message(text);
    let body = encode_message(&msg);
    assert!(body.contains(&FRAME_TERMINATOR));
    let frame = encode_frame(&body, FrameVariant::TerminatorDelimited);
    let mut rx = FrameReceiver::new(FrameVariant::TerminatorDelimited);
    rx.feed(&frame);
    match rx.poll() {
        PollMsg::Msg(got) => assert_eq!(got, msg),
        other => panic!("expected a message, got {:?}", other),
    }
}

#[test]
fn two_byte_length_varint_round_trips() {
    // A 200-byte payload forces the field length into a two-byte varint.
    let text = vec![b'x'; 200];
    let msg = console_log_message(&text);
    let body = encode_message(&msg);
    assert_eq!(parse_wire_message(&body), Some(msg));
}

#[test]
fn buffer_retains_nothing_after_each_fully_consumed_frame() {
    let msg = console_log_message(b"steady traffic");
    let frame = encode_frame(&encode_message(&msg), FrameVariant::LengthPrefixed);
    let mut rx = FrameReceiver::new(FrameVariant::LengthPrefixed);
    for _ in 0..8 {
        rx.feed(&frame);
        assert!(matches!(rx.poll(), PollMsg::Msg(_)));
        assert_eq!(rx.retained_len(), 0);
    }
}

#[test]
fn unparseable_length_prefixed_body_is_corrupt() {
    // 0xFF is no field tag, so the one-byte body cannot parse.
    let frame = encode_frame(&[0xFF], FrameVariant::LengthPrefixed);
    let mut rx = FrameReceiver::new(FrameVariant::LengthPrefixed);
    rx.feed(&frame);
    assert!(matches!(rx.poll(), PollMsg::Corrupt));
}

#[test]
fn truncated_header_needs_more_data() {
    let mut rx = FrameReceiver::new(FrameVariant::LengthPrefixed);
    rx.feed(&[0, 0]);
    assert!(matches!(rx.poll(), PollMsg::NeedData));
}

#[test]
fn wire_message_round_trips_through_parse() {
    let msg = WireMessage {
        id: Some(northstar_rcon_client::message::REQUEST_ID_SENTINEL),
        typ: Some(northstar_rcon_client::message::REQUEST_TYPE_SETVALUE),
        buf: Some(b"sv_cheats".to_vec()),
        val: Some(b"1".to_vec()),
    };
    let body = encode_message(&msg);
    assert_eq!(parse_wire_message(&body), Some(msg));
}

#[test]
fn parse_rejects_unknown_tag() {
    assert_eq!(parse_wire_message(&[0x2A, 0x00]), None);
}

#[test]
fn parse_rejects_truncated_string_field() {
    // Field 3 declares five bytes but only two follow.
    assert_eq!(parse_wire_message(&[0x1A, 0x05, b'a', b'b']), None);
}
