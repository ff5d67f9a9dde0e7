//! The abstract request/event vocabulary and its mapping onto the wire
//! schema.
//!
//! Every request is sent as a wire message whose identifier is a fixed
//! sentinel (this client never correlates replies by id), whose type tag
//! names the request kind, and whose `buf`/`val` fields carry the textual
//! arguments as UTF-8 bytes. Responses are classified by their type tag;
//! an authentication reply is further classified by searching its free-text
//! payload for the known server phrases.

use vstd::prelude::*;
use vstd::string::StringSliceAdditionalSpecFns;
use vstd::utf8::{decode_utf8, encode_utf8, valid_utf8};

use crate::wire::WireModel;
use crate::Error;

verus! {

/// Wire value of the type tag of a `SetValue` request.
pub const REQUEST_TYPE_SETVALUE: u64 = 1;

/// Wire value of the type tag of an `ExecCommand` request.
pub const REQUEST_TYPE_EXECCOMMAND: u64 = 2;

/// Wire value of the type tag of an `Authenticate` request.
pub const REQUEST_TYPE_AUTH: u64 = 3;

/// Wire value of the type tag of an `EnableConsoleLogs` request.
pub const REQUEST_TYPE_ENABLE_CONSOLE_LOGS: u64 = 4;

/// Wire value of the type tag of an authentication result.
pub const RESPONSE_TYPE_AUTH: u64 = 2;

/// Wire value of the type tag of a console-log event.
pub const RESPONSE_TYPE_CONSOLE_LOG: u64 = 3;

/// The request identifier this client always sends: the zigzag form of the
/// signed id -1, which the server does not use for correlation.
pub const REQUEST_ID_SENTINEL: u64 = 1;

/// Byte length cap on each textual request argument, so that the encoded
/// message always fits behind a 32-bit frame length header.
pub const MAX_TEXT_LEN: usize = 0x3FFF_FFFF;

/// A post-authentication request.
#[derive(Debug, Clone, Copy)]
pub enum Request<'a> {
    SetValue { var: &'a str, val: &'a str },
    ExecCommand { cmd: &'a str },
    EnableConsoleLogs,
}

/// An asynchronous event from the server after authentication.
#[derive(Debug, Clone, PartialEq)]
pub enum Event {
    ConsoleLog { msg: String },
}

/// Why an authentication attempt failed.
#[derive(Debug)]
pub enum AuthError {
    /// The password was rejected; the same connection may be retried.
    InvalidPassword,
    /// The server turned this client away; the connection must be abandoned.
    Banned,
    /// A transport or decode failure ended the handshake.
    Fatal(Error),
}

/// How the server answered an authentication request.
#[derive(Debug, Clone, Copy, PartialEq, Eq, Structural)]
pub enum AuthResponse {
    Accepted,
    InvalidPassword,
    Banned,
}

/// The wire message a post-authentication request is sent as.
pub open spec fn request_model<'a>(r: Request<'a>) -> WireModel {
    match r {
        Request::SetValue { var, val } => WireModel {
            id: Some(REQUEST_ID_SENTINEL as int),
            typ: Some(REQUEST_TYPE_SETVALUE as int),
            buf: Some(var.spec_bytes()),
            val: Some(val.spec_bytes()),
        },
        Request::ExecCommand { cmd } => WireModel {
            id: Some(REQUEST_ID_SENTINEL as int),
            typ: Some(REQUEST_TYPE_EXECCOMMAND as int),
            buf: Some(cmd.spec_bytes()),
            val: None,
        },
        Request::EnableConsoleLogs => WireModel {
            id: Some(REQUEST_ID_SENTINEL as int),
            typ: Some(REQUEST_TYPE_ENABLE_CONSOLE_LOGS as int),
            buf: None,
            val: None,
        },
    }
}

/// `needle` occurs contiguously somewhere in `hay`.
pub open spec fn contains_bytes(hay: Seq<u8>, needle: Seq<u8>) -> bool {
    exists|i: int|
        0 <= i <= hay.len() - needle.len() && #[trigger] hay.subrange(i, i + needle.len())
            == needle
}

/// The phrase the server embeds in a rejected-password reply.
pub open spec fn invalid_password_needle() -> Seq<u8> {
    encode_utf8("Password incorrect"@)
}

/// The phrase the server embeds when it refuses this client outright.
pub open spec fn banned_needle() -> Seq<u8> {
    encode_utf8("Go away"@)
}

/// How an authentication reply's free text is read: the server gives no
/// structured verdict, so the known phrases are searched for, and any other
/// text counts as acceptance.
pub open spec fn classify_auth_model(b: Seq<u8>) -> AuthResponse {
    if contains_bytes(b, invalid_password_needle()) {
        AuthResponse::InvalidPassword
    } else if contains_bytes(b, banned_needle()) {
        AuthResponse::Banned
    } else {
        AuthResponse::Accepted
    }
}

/// Whether `needle` occurs at position `i` of `hay`.
pub(crate) fn bytes_match_at(hay: &[u8], needle: &[u8], i: usize) -> (r: bool)
    requires
        i + needle@.len() <= hay@.len(),
    ensures
        r == (hay@.subrange(i as int, i as int + needle@.len() as int) == needle@),
{
    let n = needle.len();
    let hlen = hay.len();
    let mut j: usize = 0;
    while j < n
        invariant
            0 <= j <= n,
            n == needle@.len(),
            hlen == hay@.len(),
            i + n <= hay@.len(),
            forall|k: int| 0 <= k < j ==> hay@[i + k] == needle@[k],
        decreases n - j,
    {
        if *vstd::slice::slice_index_get(hay, i + j) != *vstd::slice::slice_index_get(needle, j) {
            assert(hay@.subrange(i as int, i as int + n as int)[j as int] != needle@[j as int]);
            return false;
        }
        j = j + 1;
    }
    assert(hay@.subrange(i as int, i as int + n as int) =~= needle@);
    true
}

/// Whether `needle` occurs anywhere in `hay`; mirrors `contains_bytes`.
pub fn bytes_contain(hay: &[u8], needle: &[u8]) -> (r: bool)
    ensures
        r == contains_bytes(hay@, needle@),
{
    let n = needle.len();
    if n > hay.len() {
        assert(!contains_bytes(hay@, needle@));
        return false;
    }
    if n == 0 {
        assert(hay@.subrange(0int, 0int + needle@.len() as int) =~= needle@);
        assert(contains_bytes(hay@, needle@));
        return true;
    }
    let last = hay.len() - n;
    let hlen = hay.len();
    let mut i: usize = 0;
    while i <= last
        invariant
            0 <= i <= last + 1,
            last == hay@.len() - n,
            hlen == hay@.len(),
            1 <= n == needle@.len(),
            n <= hay@.len(),
            forall|k: int|
                0 <= k < i ==> #[trigger] hay@.subrange(k, k + needle@.len() as int) != needle@,
        decreases hay@.len() - i,
    {
        if bytes_match_at(hay, needle, i) {
            assert(contains_bytes(hay@, needle@));
            return true;
        }
        i = i + 1;
    }
    assert(!contains_bytes(hay@, needle@));
    false
}

/// Classifies an authentication reply's text; mirrors `classify_auth_model`.
pub fn classify_auth_text(b: &[u8]) -> (r: AuthResponse)
    ensures
        r == classify_auth_model(b@),
{
    let invalid = "Password incorrect".as_bytes();
    let banned = "Go away".as_bytes();
    if bytes_contain(b, invalid) {
        AuthResponse::InvalidPassword
    } else if bytes_contain(b, banned) {
        AuthResponse::Banned
    } else {
        AuthResponse::Accepted
    }
}

/// Relies on `String::from_utf8`: it succeeds exactly on valid UTF-8 input,
/// and the string it returns decodes those bytes.
#[verifier::external_body]
pub(crate) fn bytes_to_string(b: Vec<u8>) -> (r: Option<String>)
    ensures
        r is Some <==> valid_utf8(b@),
        r matches Some(s) ==> s@ == decode_utf8(b@),
{
    String::from_utf8(b).ok()
}

} // verus!
