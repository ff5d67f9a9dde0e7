//! The client engine: requests out, responses in.
//!
//! The sending half turns one request into one encoded frame. The receiving
//! half accumulates delivered bytes and yields one recognized response at a
//! time, silently discarding structured messages whose type it does not
//! know — forward compatibility demands that an unknown response never ends
//! the read loop.

use vstd::prelude::*;
use vstd::string::StringSliceAdditionalSpecFns;
use vstd::string::StrSliceExecFns;
use vstd::utf8::{decode_utf8, valid_utf8};

use crate::codec::{
    encode_frame, frame_bytes, lemma_next_message_consumes, lemma_next_message_extend,
    next_message, FrameReceiver, FrameVariant, PollMsg, SpecStep,
};
use crate::message::{
    bytes_to_string, classify_auth_model, classify_auth_text, AuthResponse, Event,
    MAX_TEXT_LEN, REQUEST_ID_SENTINEL, REQUEST_TYPE_AUTH, REQUEST_TYPE_ENABLE_CONSOLE_LOGS,
    REQUEST_TYPE_EXECCOMMAND, REQUEST_TYPE_SETVALUE, RESPONSE_TYPE_AUTH,
    RESPONSE_TYPE_CONSOLE_LOG,
};
use crate::codec::be32;
use crate::wire::{
    encode_message, encode_model, lemma_model_round_trip, parse_message, wf_model, WireMessage,
    WireModel,
};

verus! {

/// Everything this client can ask of the server.
#[derive(Debug, Clone, Copy)]
pub enum Request<'a> {
    Auth { pass: &'a str },
    SetValue { var: &'a str, val: &'a str },
    ExecCommand { cmd: &'a str },
    EnableConsoleLogs,
}

/// A recognized response from the server.
#[derive(Debug, PartialEq)]
pub enum Response {
    Auth { res: Result<(), AuthError> },
    ConsoleLog { msg: String },
}

/// How the server refused an authentication request.
#[derive(Debug, Clone, Copy, PartialEq, Eq, Structural)]
pub enum AuthError {
    InvalidPassword,
    Banned,
}

/// The mathematical shape of a recognized response.
pub enum ResponseModel {
    Auth(Result<(), AuthError>),
    ConsoleLog(Seq<char>),
}

impl View for Response {
    type V = ResponseModel;

    open spec fn view(&self) -> ResponseModel {
        match self {
            Response::Auth { res } => ResponseModel::Auth(*res),
            Response::ConsoleLog { msg } => ResponseModel::ConsoleLog(msg@),
        }
    }
}

/// The authentication verdict carried by an auth reply's text.
pub open spec fn auth_result_model(b: Seq<u8>) -> Result<(), AuthError> {
    match classify_auth_model(b) {
        AuthResponse::Accepted => Ok(()),
        AuthResponse::InvalidPassword => Err(AuthError::InvalidPassword),
        AuthResponse::Banned => Err(AuthError::Banned),
    }
}

/// How a structured message is read as a response: an auth reply or a
/// console line, each demanding a UTF-8 `buf` field; anything else — an
/// unknown type tag, a missing payload, ill-formed text — is not
/// representable and is skipped.
pub open spec fn response_of(m: WireModel) -> Option<ResponseModel> {
    if m.typ == Some(RESPONSE_TYPE_AUTH as int) {
        match m.buf {
            Some(b) => if valid_utf8(b) {
                Some(ResponseModel::Auth(auth_result_model(b)))
            } else {
                None
            },
            None => None,
        }
    } else if m.typ == Some(RESPONSE_TYPE_CONSOLE_LOG as int) {
        match m.buf {
            Some(b) => if valid_utf8(b) {
                Some(ResponseModel::ConsoleLog(decode_utf8(b)))
            } else {
                None
            },
            None => None,
        }
    } else {
        None
    }
}

/// Reads one structured message as a response; mirrors `response_of`.
pub fn response_of_message(m: WireMessage) -> (r: Option<Response>)
    ensures
        match r {
            Some(resp) => response_of(m@) == Some(resp@),
            None => response_of(m@) is None,
        },
{
    let typ = match m.typ {
        Some(t) => t,
        None => {
            return None;
        },
    };
    if typ == RESPONSE_TYPE_AUTH {
        match m.buf {
            Some(b) => {
                let cls = classify_auth_text(b.as_slice());
                match bytes_to_string(b) {
                    Some(_text) => {
                        let res = match cls {
                            AuthResponse::Accepted => Ok(()),
                            AuthResponse::InvalidPassword => Err(AuthError::InvalidPassword),
                            AuthResponse::Banned => Err(AuthError::Banned),
                        };
                        Some(Response::Auth { res })
                    },
                    None => None,
                }
            },
            None => None,
        }
    } else if typ == RESPONSE_TYPE_CONSOLE_LOG {
        match m.buf {
            Some(b) => match bytes_to_string(b) {
                Some(msg) => Some(Response::ConsoleLog { msg }),
                None => None,
            },
            None => None,
        }
    } else {
        None
    }
}

/// What draining the receive buffer yields on a pending byte sequence.
pub enum SpecPoll {
    /// No recognized response is buffered whole.
    NeedData,
    /// One recognized response, and the bytes left pending after it.
    Got(ResponseModel, Seq<u8>),
    /// A length-prefixed body failed to parse; the stream is lost.
    Corrupt,
}

/// Drains messages from `p` until one is recognized: unrecognized messages
/// are discarded and extraction continues behind them.
pub open spec fn next_response(p: Seq<u8>, variant: FrameVariant) -> SpecPoll
    decreases p.len(),
    via next_response_decreases
{
    match next_message(p, variant) {
        SpecStep::NeedData => SpecPoll::NeedData,
        SpecStep::Corrupt => SpecPoll::Corrupt,
        SpecStep::Msg(m, rest) => match response_of(m) {
            Some(r) => SpecPoll::Got(r, rest),
            None => next_response(rest, variant),
        },
    }
}

#[via_fn]
proof fn next_response_decreases(p: Seq<u8>, variant: FrameVariant) {
    lemma_next_message_consumes(p, variant);
}

/// Outcomes agree on byte sequences whose next extracted message agrees.
proof fn lemma_next_response_congruence(a: Seq<u8>, b: Seq<u8>, variant: FrameVariant)
    requires
        next_message(a, variant) == next_message(b, variant),
    ensures
        next_response(a, variant) == next_response(b, variant),
{
}

/// Accumulates delivered bytes and yields recognized responses.
#[derive(Debug)]
pub struct ResponseReceiver {
    frames: FrameReceiver,
}

/// One receive attempt's outcome, as handed to callers.
#[derive(Debug)]
pub enum PollResponse {
    /// Nothing recognized is buffered whole; deliver more bytes and retry.
    NeedData,
    /// One recognized response.
    Got(Response),
    /// A frame body failed to parse; the stream is unusable.
    Corrupt,
}

impl ResponseReceiver {
    /// The framing this receiver extracts.
    pub closed spec fn framing(&self) -> FrameVariant {
        self.frames.framing()
    }

    /// The delivered bytes not yet consumed.
    pub closed spec fn pending(&self) -> Seq<u8> {
        self.frames.pending()
    }

    /// How many bytes the internal buffer holds, consumed prefix included.
    pub closed spec fn retained(&self) -> int {
        self.frames.retained()
    }

    /// Internal consistency.
    pub closed spec fn wf(&self) -> bool {
        self.frames.wf()
    }

    /// An empty receiver for the given framing.
    pub fn new(variant: FrameVariant) -> (r: ResponseReceiver)
        ensures
            r.wf(),
            r.framing() == variant,
            r.pending() == Seq::<u8>::empty(),
            r.retained() == 0,
    {
        ResponseReceiver { frames: FrameReceiver::new(variant) }
    }

    /// How many bytes the internal buffer holds.
    pub fn retained_len(&self) -> (n: usize)
        ensures
            n == self.retained(),
    {
        self.frames.retained_len()
    }

    /// Appends one delivered chunk; a fully-consumed buffer is recycled
    /// first, so steady traffic of whole frames retains nothing.
    pub fn feed(&mut self, chunk: &[u8])
        requires
            old(self).wf(),
        ensures
            final(self).wf(),
            final(self).framing() == old(self).framing(),
            final(self).pending() == old(self).pending() + chunk@,
            final(self).retained() <= old(self).retained() + chunk@.len(),
            old(self).pending().len() == 0 ==> final(self).retained() == chunk@.len(),
    {
        self.frames.feed(chunk);
    }

    /// Attempts to yield one recognized response, discarding however many
    /// unrecognized messages precede it. The outcome is a function of the
    /// unconsumed bytes alone.
    pub fn poll(&mut self) -> (r: PollResponse)
        requires
            old(self).wf(),
        ensures
            final(self).wf(),
            final(self).framing() == old(self).framing(),
            match r {
                PollResponse::NeedData => {
                    &&& next_response(old(self).pending(), old(self).framing()) is NeedData
                    &&& next_response(final(self).pending(), old(self).framing()) is NeedData
                    &&& forall|c: Seq<u8>|
                        next_response(final(self).pending() + c, old(self).framing())
                            == next_response(old(self).pending() + c, old(self).framing())
                },
                PollResponse::Got(resp) => {
                    &&& next_response(old(self).pending(), old(self).framing()) == SpecPoll::Got(
                        resp@,
                        final(self).pending(),
                    )
                    &&& (final(self).pending().len() == 0 ==> final(self).retained() == 0)
                },
                PollResponse::Corrupt => {
                    &&& next_response(old(self).pending(), old(self).framing()) is Corrupt
                    &&& next_response(final(self).pending(), old(self).framing()) is Corrupt
                },
            },
        decreases old(self).pending().len(),
    {
        let ghost p0 = self.pending();
        let ghost v = self.framing();
        match self.frames.poll() {
            PollMsg::NeedData => {
                proof {
                    assert(next_response(p0, v) is NeedData);
                    assert(final(self).pending() == self.pending());
                    assert(next_response(final(self).pending(), v) is NeedData);
                    assert forall|c: Seq<u8>|
                        next_response(final(self).pending() + c, v) == next_response(p0 + c, v) by {
                        assert(next_message(self.pending() + c, v) == next_message(p0 + c, v));
                        lemma_next_response_congruence(self.pending() + c, p0 + c, v);
                    }
                }
                PollResponse::NeedData
            },
            PollMsg::Corrupt => PollResponse::Corrupt,
            PollMsg::Msg(msg) => {
                proof {
                    lemma_next_message_consumes(p0, v);
                }
                match response_of_message(msg) {
                    Some(resp) => PollResponse::Got(resp),
                    None => {
                        let ghost p1 = self.pending();
                        let r = self.poll();
                        proof {
                            match r {
                                PollResponse::NeedData => {
                                    assert(next_response(p0, v) == next_response(p1, v));
                                    assert forall|c: Seq<u8>|
                                        next_response(final(self).pending() + c, v)
                                            == next_response(p0 + c, v) by {
                                        lemma_next_message_extend(p0, c, v);
                                        assert(next_message(p0 + c, v) == SpecStep::Msg(
                                            msg@,
                                            p1 + c,
                                        ));
                                        assert(next_response(final(self).pending() + c, v)
                                            == next_response(p1 + c, v));
                                    }
                                },
                                _ => {},
                            }
                        }
                        r
                    },
                }
            },
        }
    }
}

/// The wire message a request is sent as.
pub open spec fn request_model<'a>(r: Request<'a>) -> WireModel {
    match r {
        Request::Auth { pass } => WireModel {
            id: Some(REQUEST_ID_SENTINEL as int),
            typ: Some(REQUEST_TYPE_AUTH as int),
            buf: Some(pass.spec_bytes()),
            val: None,
        },
        Request::SetValue { var, val } => WireModel {
            id: Some(REQUEST_ID_SENTINEL as int),
            typ: Some(REQUEST_TYPE_SETVALUE as int),
            buf: Some(var.spec_bytes()),
            val: Some(val.spec_bytes()),
        },
        Request::ExecCommand { cmd } => WireModel {
            id: Some(REQUEST_ID_SENTINEL as int),
            typ: Some(REQUEST_TYPE_EXECCOMMAND as int),
            buf: Some(cmd.spec_bytes()),
            val: None,
        },
        Request::EnableConsoleLogs => WireModel {
            id: Some(REQUEST_ID_SENTINEL as int),
            typ: Some(REQUEST_TYPE_ENABLE_CONSOLE_LOGS as int),
            buf: None,
            val: None,
        },
    }
}

/// Every textual argument of `r` fits the per-field byte cap.
pub open spec fn request_fits<'a>(r: Request<'a>) -> bool {
    match r {
        Request::Auth { pass } => pass.spec_bytes().len() <= MAX_TEXT_LEN,
        Request::SetValue { var, val } => var.spec_bytes().len() <= MAX_TEXT_LEN
            && val.spec_bytes().len() <= MAX_TEXT_LEN,
        Request::ExecCommand { cmd } => cmd.spec_bytes().len() <= MAX_TEXT_LEN,
        Request::EnableConsoleLogs => true,
    }
}

/// Builds the wire message for `r`.
pub fn request_to_wire<'a>(r: Request<'a>) -> (m: WireMessage)
    ensures
        m@ == request_model(r),
{
    let m = match r {
        Request::Auth { pass } => WireMessage {
            id: Some(REQUEST_ID_SENTINEL),
            typ: Some(REQUEST_TYPE_AUTH),
            buf: Some(pass.as_bytes_vec()),
            val: None,
        },
        Request::SetValue { var, val } => WireMessage {
            id: Some(REQUEST_ID_SENTINEL),
            typ: Some(REQUEST_TYPE_SETVALUE),
            buf: Some(var.as_bytes_vec()),
            val: Some(val.as_bytes_vec()),
        },
        Request::ExecCommand { cmd } => WireMessage {
            id: Some(REQUEST_ID_SENTINEL),
            typ: Some(REQUEST_TYPE_EXECCOMMAND),
            buf: Some(cmd.as_bytes_vec()),
            val: None,
        },
        Request::EnableConsoleLogs => WireMessage {
            id: Some(REQUEST_ID_SENTINEL),
            typ: Some(REQUEST_TYPE_ENABLE_CONSOLE_LOGS),
            buf: None,
            val: None,
        },
    };
    assert(m@ =~= request_model(r));
    m
}

/// Encodes `r` as one whole frame in the given framing.
pub fn encode_request_frame<'a>(r: Request<'a>, variant: FrameVariant) -> (out: Vec<u8>)
    requires
        request_fits(r),
    ensures
        out@ == frame_bytes(encode_model(request_model(r)), variant),
{
    let m = request_to_wire(r);
    let body = encode_message(&m);
    proof {
        assert(body@.len() < 0x1_0000_0000);
    }
    encode_frame(body.as_slice(), variant)
}

/// Round trip: every request's encoded wire message parses back to the
/// documented type tag and field values.
pub proof fn lemma_request_round_trip<'a>(r: Request<'a>)
    requires
        request_fits(r),
    ensures
        parse_message(encode_model(request_model(r))) == Some(request_model(r)),
{
    lemma_model_round_trip(request_model(r));
}

/// Reads a response as a post-authentication event: a console line is one;
/// an authentication result — which the server should no longer send — is
/// not, and is skipped by the read loop rather than treated as an error.
pub fn event_of(r: Response) -> (e: Option<Event>)
    ensures
        match r@ {
            ResponseModel::ConsoleLog(text) => e matches Some(Event::ConsoleLog { msg })
                && msg@ == text,
            ResponseModel::Auth(res) => e is None,
        },
{
    match r {
        Response::ConsoleLog { msg } => Some(Event::ConsoleLog { msg }),
        Response::Auth { res: _ } => None,
    }
}

/// Widens a post-authentication request into the full request vocabulary;
/// the wire message is unchanged.
pub fn request_of_message<'a>(r: crate::message::Request<'a>) -> (q: Request<'a>)
    ensures
        request_model(q) == crate::message::request_model(r),
{
    match r {
        crate::message::Request::SetValue { var, val } => Request::SetValue { var, val },
        crate::message::Request::ExecCommand { cmd } => Request::ExecCommand { cmd },
        crate::message::Request::EnableConsoleLogs => Request::EnableConsoleLogs,
    }
}

/// Chunking is immaterial: bytes delivered in two chunks leave the receiver
/// deciding the same outcome as the same bytes delivered at once, whatever
/// was pending before them.
pub proof fn lemma_split_delivery(p: Seq<u8>, c1: Seq<u8>, c2: Seq<u8>, variant: FrameVariant)
    ensures
        next_response(p + c1 + c2, variant) == next_response(p + (c1 + c2), variant),
{
    assert(p + c1 + c2 =~= p + (c1 + c2));
}

/// The wire message of an authentication reply with text `t`.
pub open spec fn auth_reply_model(t: Seq<u8>) -> WireModel {
    WireModel { id: None, typ: Some(RESPONSE_TYPE_AUTH as int), buf: Some(t), val: None }
}

/// The wire message of a console-log event with text `t`.
pub open spec fn console_log_model(t: Seq<u8>) -> WireModel {
    WireModel { id: None, typ: Some(RESPONSE_TYPE_CONSOLE_LOG as int), buf: Some(t), val: None }
}

/// A whole framed authentication reply is the next recognized response, and
/// it carries the verdict its text classifies to; whatever follows the
/// frame stays pending. This is what decides the handshake: rejected
/// password, ban, or acceptance, by the phrases in `t` alone.
pub proof fn lemma_auth_reply_decides(t: Seq<u8>, rest: Seq<u8>, variant: FrameVariant)
    requires
        valid_utf8(t),
        t.len() <= MAX_TEXT_LEN,
    ensures
        next_response(frame_bytes(encode_model(auth_reply_model(t)), variant) + rest, variant)
            == SpecPoll::Got(ResponseModel::Auth(auth_result_model(t)), rest),
{
    crate::wire::lemma_encode_model_len(auth_reply_model(t));
    lemma_reply_extracts(auth_reply_model(t), rest, variant);
}

/// A whole framed console-log event is the next recognized response,
/// carrying its decoded text; whatever follows the frame stays pending.
/// Two back-to-back frames are therefore handed out in wire order.
pub proof fn lemma_console_log_extracts(t: Seq<u8>, rest: Seq<u8>, variant: FrameVariant)
    requires
        valid_utf8(t),
        t.len() <= MAX_TEXT_LEN,
    ensures
        next_response(frame_bytes(encode_model(console_log_model(t)), variant) + rest, variant)
            == SpecPoll::Got(ResponseModel::ConsoleLog(decode_utf8(t)), rest),
{
    crate::wire::lemma_encode_model_len(console_log_model(t));
    lemma_reply_extracts(console_log_model(t), rest, variant);
}

/// Common core of the two lemmas above: a whole framed recognized message
/// is the next response.
proof fn lemma_reply_extracts(m: WireModel, rest: Seq<u8>, variant: FrameVariant)
    requires
        wf_model(m),
        m.typ is Some,
        response_of(m) is Some,
        encode_model(m).len() < 0x1_0000_0000,
    ensures
        next_response(frame_bytes(encode_model(m), variant) + rest, variant) == SpecPoll::Got(
            response_of(m)->Some_0,
            rest,
        ),
{
    lemma_model_round_trip(m);
    let body = encode_model(m);
    match variant {
        FrameVariant::LengthPrefixed => {
            crate::codec::lemma_frame_lp_extracts(body, rest);
        },
        FrameVariant::TerminatorDelimited => {
            assert(body.len() > 0);
            crate::codec::lemma_frame_term_extracts(body, rest);
        },
    }
}

/// An unrecognized message does not end the read loop: a whole frame around
/// it is discarded, and the bytes after it alone decide the outcome.
pub proof fn lemma_unrecognized_skipped(m: WireModel, rest: Seq<u8>, variant: FrameVariant)
    requires
        wf_model(m),
        m.typ is Some,
        response_of(m) is None,
        encode_model(m).len() < 0x1_0000_0000,
    ensures
        next_response(frame_bytes(encode_model(m), variant) + rest, variant) == next_response(
            rest,
            variant,
        ),
{
    lemma_model_round_trip(m);
    let body = encode_model(m);
    match variant {
        FrameVariant::LengthPrefixed => {
            crate::codec::lemma_frame_lp_extracts(body, rest);
        },
        FrameVariant::TerminatorDelimited => {
            assert(body.len() > 0);
            crate::codec::lemma_frame_term_extracts(body, rest);
        },
    }
}

/// Splits a length-prefixed byte sequence: the message body named by the
/// four-byte big-endian header, and everything after it. `None` when the
/// header or the body is not yet complete.
pub fn get_message_from_slice<'a>(slice: &'a [u8]) -> (r: Option<(&'a [u8], &'a [u8])>)
    ensures
        ({
            let s = slice@;
            match r {
                Some((body, rest)) => {
                    let n = be32(s[0], s[1], s[2], s[3]) as int;
                    &&& s.len() >= 4
                    &&& s.len() - 4 >= n
                    &&& body@ == s.subrange(4, 4 + n)
                    &&& rest@ == s.skip(4 + n)
                },
                None => s.len() < 4 || s.len() - 4 < be32(s[0], s[1], s[2], s[3]) as int,
            }
        }),
{
    if slice.len() < 4 {
        return None;
    }
    let b0 = *vstd::slice::slice_index_get(slice, 0);
    let b1 = *vstd::slice::slice_index_get(slice, 1);
    let b2 = *vstd::slice::slice_index_get(slice, 2);
    let b3 = *vstd::slice::slice_index_get(slice, 3);
    let n: u32 = ((b0 as u32) << 24) | ((b1 as u32) << 16) | ((b2 as u32) << 8) | (b3 as u32);
    if (n as u64) > ((slice.len() - 4) as u64) {
        return None;
    }
    let n_us = n as usize;
    let body = vstd::slice::slice_subrange(slice, 4, 4 + n_us);
    let rest = vstd::slice::slice_subrange(slice, 4 + n_us, slice.len());
    assert(rest@ =~= slice@.skip(4 + n as int));
    Some((body, rest))
}

} // verus!
