//! The shell's line parser and the message-layer classification helpers.

use northstar_rcon_client::cli::{parse_repl_line, trim_bytes, ReplAction};
use northstar_rcon_client::message::{bytes_contain, classify_auth_text, AuthResponse};

#[test]
fn plain_line_is_a_raw_command() {
    assert_eq!(parse_repl_line(b"status"), ReplAction::Exec(b"status".to_vec()));
}

#[test]
fn line_is_trimmed_before_parsing() {
    assert_eq!(parse_repl_line(b"  status \r\n"), ReplAction::Exec(b"status".to_vec()));
}

#[test]
fn empty_line_is_an_empty_command() {
    assert_eq!(parse_repl_line(b"   "), ReplAction::Exec(Vec::new()));
}

#[test]
fn help_builtin() {
    assert_eq!(parse_repl_line(b"!help"), ReplAction::ShowHelp);
}

#[test]
fn quit_builtin() {
    assert_eq!(parse_repl_line(b" !quit "), ReplAction::Quit);
}

#[test]
fn enable_console_builtin() {
    assert_eq!(parse_repl_line(b"!enable console"), ReplAction::EnableConsoleLogs);
}

#[test]
fn set_builtin_splits_at_first_space() {
    assert_eq!(
        parse_repl_line(b"!set ns_private_match 1"),
        ReplAction::SetValue(b"ns_private_match".to_vec(), b"1".to_vec()),
    );
}

#[test]
fn set_builtin_keeps_spaces_inside_the_value() {
    assert_eq!(
        parse_repl_line(b"!set motd hello there"),
        ReplAction::SetValue(b"motd".to_vec(), b"hello there".to_vec()),
    );
}

#[test]
fn set_builtin_without_value_prints_usage() {
    assert_eq!(parse_repl_line(b"!set lonely"), ReplAction::SetUsage);
}

#[test]
fn unknown_builtin_is_reported() {
    assert_eq!(parse_repl_line(b"!frobnicate"), ReplAction::UnknownBuiltin);
}

#[test]
fn bare_set_without_space_is_unknown() {
    assert_eq!(parse_repl_line(b"!set"), ReplAction::UnknownBuiltin);
}

#[test]
fn trim_bytes_strips_ascii_whitespace_only_at_the_ends() {
    assert_eq!(trim_bytes(b"\t a b \n"), b"a b".to_vec());
    assert_eq!(trim_bytes(b""), Vec::<u8>::new());
    assert_eq!(trim_bytes(b" \t\r\n"), Vec::<u8>::new());
}

#[test]
fn classification_searches_for_server_phrases() {
    assert_eq!(classify_auth_text(b"Password incorrect"), AuthResponse::InvalidPassword);
    assert_eq!(
        classify_auth_text(b"error: Password incorrect, try again"),
        AuthResponse::InvalidPassword,
    );
    assert_eq!(classify_auth_text(b"Go away"), AuthResponse::Banned);
    assert_eq!(classify_auth_text(b"banned: Go away now"), AuthResponse::Banned);
    assert_eq!(classify_auth_text(b"welcome"), AuthResponse::Accepted);
    assert_eq!(classify_auth_text(b""), AuthResponse::Accepted);
    // The phrase match is case-sensitive, as the server writes it.
    assert_eq!(classify_auth_text(b"password incorrect"), AuthResponse::Accepted);
}

#[test]
fn bytes_contain_finds_embedded_needles() {
    assert!(bytes_contain(b"abcdef", b"cde"));
    assert!(bytes_contain(b"abc", b""));
    assert!(!bytes_contain(b"abc", b"abcd"));
    assert!(!bytes_contain(b"abcdef", b"xyz"));
}
