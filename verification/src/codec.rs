//! Frame extraction and encoding for the two wire conventions.
//!
//! A connection uses one of two framings, fixed at construction:
//!
//! * *Length-prefixed*: a four-byte big-endian payload length, then the
//!   payload.
//! * *Terminator-delimited*: the payload, then a single sentinel byte
//!   (`0x0D`). The payload may itself contain the sentinel value, so
//!   extraction scans for a sentinel whose preceding bytes parse as a whole
//!   message, and resumes the scan past sentinels that do not close one.
//!   An empty candidate body (a stray leading sentinel) is discarded.
//!
//! `FrameReceiver` accumulates delivered bytes and extracts one structured
//! message at a time; what it hands back is a function of the unconsumed
//! bytes alone, never of how they were chunked.

use vstd::prelude::*;

use crate::wire::{
    lemma_prefix_fails_at_unknown_tag, parse_message, parse_wire_message, WireMessage, WireModel,
    TAG_BUF, TAG_ID, TAG_TYPE, TAG_VAL,
};

verus! {

/// End-of-frame sentinel of the terminator-delimited framing.
pub const FRAME_TERMINATOR: u8 = 0x0D;

/// Which framing a connection uses.
#[derive(Debug, Clone, Copy, PartialEq, Eq, Structural)]
pub enum FrameVariant {
    LengthPrefixed,
    TerminatorDelimited,
}

/// The big-endian 32-bit value of four header bytes.
pub open spec fn be32(b0: u8, b1: u8, b2: u8, b3: u8) -> u32 {
    ((b0 as u32) << 24) | ((b1 as u32) << 16) | ((b2 as u32) << 8) | (b3 as u32)
}

/// The four big-endian header bytes of `n`.
pub open spec fn be32_bytes(n: u32) -> Seq<u8> {
    seq![(n >> 24) as u8, (n >> 16) as u8, (n >> 8) as u8, n as u8]
}

/// Reading back the header bytes of `n` yields `n`.
pub proof fn lemma_be32_round_trip(n: u32)
    ensures
        be32((n >> 24) as u8, (n >> 16) as u8, (n >> 8) as u8, n as u8) == n,
{
    assert((((n >> 24) as u8) as u32) << 24 | (((n >> 16) as u8) as u32) << 16 | (((n >> 8) as u8)
        as u32) << 8 | ((n as u8) as u32) == n) by (bit_vector);
}

/// One whole frame around `body`, in the given framing.
pub open spec fn frame_bytes(body: Seq<u8>, variant: FrameVariant) -> Seq<u8>
    recommends
        variant is LengthPrefixed ==> body.len() < 0x1_0000_0000,
{
    match variant {
        FrameVariant::LengthPrefixed => be32_bytes(body.len() as u32) + body,
        FrameVariant::TerminatorDelimited => body + seq![FRAME_TERMINATOR],
    }
}

/// What one extraction attempt yields on a pending byte sequence.
pub enum SpecStep {
    /// No whole message can be extracted yet.
    NeedData,
    /// One message, and the bytes left pending after it.
    Msg(WireModel, Seq<u8>),
    /// A length-prefixed body that does not parse; the stream is lost.
    Corrupt,
}

/// The position of the first sentinel at or after `from`, if any.
pub open spec fn find_terminator(p: Seq<u8>, from: int) -> Option<int>
    decreases p.len() - from,
{
    if from >= p.len() {
        None
    } else if p[from] == FRAME_TERMINATOR {
        Some(from)
    } else {
        find_terminator(p, from + 1)
    }
}

/// `find_terminator` returns the least sentinel position at or after `from`.
pub proof fn lemma_find_terminator(p: Seq<u8>, from: int)
    ensures
        find_terminator(p, from) matches Some(i) ==> {
            &&& from <= i < p.len()
            &&& p[i] == FRAME_TERMINATOR
            &&& forall|j: int| from <= j < i ==> p[j] != FRAME_TERMINATOR
        },
        find_terminator(p, from) is None ==> forall|j: int|
            from <= j < p.len() ==> p[j] != FRAME_TERMINATOR,
    decreases p.len() - from,
{
    if from < p.len() && p[from] != FRAME_TERMINATOR {
        lemma_find_terminator(p, from + 1);
    }
}

/// Extraction under the length-prefixed framing.
pub open spec fn next_message_lp(p: Seq<u8>) -> SpecStep {
    if p.len() < 4 {
        SpecStep::NeedData
    } else {
        let n = be32(p[0], p[1], p[2], p[3]) as int;
        if p.len() - 4 < n {
            SpecStep::NeedData
        } else {
            match parse_message(p.subrange(4, 4 + n)) {
                Some(m) => SpecStep::Msg(m, p.skip(4 + n)),
                None => SpecStep::Corrupt,
            }
        }
    }
}

/// Extraction under the terminator-delimited framing, scanning from `from`:
/// a stray leading sentinel is discarded, a sentinel whose prefix parses
/// closes a frame, and any other sentinel is stepped over.
pub open spec fn next_message_term(p: Seq<u8>, from: int) -> SpecStep
    decreases p.len(), p.len() - from,
    when 0 <= from <= p.len()
    via next_message_term_decreases
{
    match find_terminator(p, from) {
        None => SpecStep::NeedData,
        Some(i) => if i == 0 {
            next_message_term(p.skip(1), 0)
        } else {
            match parse_message(p.take(i)) {
                Some(m) => SpecStep::Msg(m, p.skip(i + 1)),
                None => next_message_term(p, i + 1),
            }
        },
    }
}

#[via_fn]
proof fn next_message_term_decreases(p: Seq<u8>, from: int) {
    lemma_find_terminator(p, from);
}

/// Extraction in the chosen framing, scanning from the start.
pub open spec fn next_message(p: Seq<u8>, variant: FrameVariant) -> SpecStep {
    match variant {
        FrameVariant::LengthPrefixed => next_message_lp(p),
        FrameVariant::TerminatorDelimited => next_message_term(p, 0),
    }
}

/// Position `j` of `p` cannot close a frame: it is either no sentinel at
/// all, or a sentinel whose preceding bytes do not parse (and not a stray
/// leading one).
pub open spec fn dead_position(p: Seq<u8>, j: int) -> bool {
    p[j] == FRAME_TERMINATOR ==> j > 0 && parse_message(p.take(j)) is None
}

/// The first `k` positions of `p` have been scanned and found dead.
pub open spec fn scanned_dead(p: Seq<u8>, k: int) -> bool {
    forall|j: int| 0 <= j < k ==> dead_position(p, j)
}

/// Scanning may resume after dead positions without changing the outcome.
pub proof fn lemma_scan_irrelevant(p: Seq<u8>, k: int)
    requires
        0 <= k <= p.len(),
        scanned_dead(p, k),
    ensures
        next_message_term(p, 0) == next_message_term(p, k),
    decreases k,
{
    if k > 0 {
        lemma_scan_irrelevant(p, k - 1);
        lemma_term_step(p, k - 1);
    }
}

/// One step of scan resumption: a dead position may be skipped.
proof fn lemma_term_step(p: Seq<u8>, j: int)
    requires
        0 <= j < p.len(),
        dead_position(p, j),
    ensures
        next_message_term(p, j) == next_message_term(p, j + 1),
{
    lemma_find_terminator(p, j);
    lemma_find_terminator(p, j + 1);
    if p[j] == FRAME_TERMINATOR {
        assert(find_terminator(p, j) == Some(j));
    } else {
        assert(find_terminator(p, j) == find_terminator(p, j + 1));
    }
}

/// When every position is dead, no frame can be extracted.
pub proof fn lemma_all_dead_needs_data(p: Seq<u8>, from: int)
    requires
        0 <= from <= p.len(),
        scanned_dead(p, p.len() as int),
    ensures
        next_message_term(p, from) == SpecStep::NeedData,
    decreases p.len() - from,
{
    lemma_find_terminator(p, from);
    match find_terminator(p, from) {
        None => {},
        Some(i) => {
            assert(dead_position(p, i));
            lemma_all_dead_needs_data(p, i + 1);
        },
    }
}

/// Discarding a stray leading sentinel never changes the outcome, whatever
/// arrives later.
pub proof fn lemma_skip_stray(p: Seq<u8>, c: Seq<u8>)
    requires
        p.len() > 0,
        p[0] == FRAME_TERMINATOR,
    ensures
        next_message_term(p + c, 0) == next_message_term(p.skip(1) + c, 0),
{
    assert((p + c)[0] == FRAME_TERMINATOR);
    assert(find_terminator(p + c, 0) == Some(0int));
    assert((p + c).skip(1) =~= p.skip(1) + c);
}

/// The first sentinel at or after `from` is `i` when `i` holds one and no
/// earlier position at or after `from` does.
pub proof fn lemma_find_terminator_exact(p: Seq<u8>, from: int, i: int)
    requires
        0 <= from <= i < p.len(),
        p[i] == FRAME_TERMINATOR,
        forall|j: int| from <= j < i ==> p[j] != FRAME_TERMINATOR,
    ensures
        find_terminator(p, from) == Some(i),
    decreases i - from,
{
    if from < i {
        lemma_find_terminator_exact(p, from + 1, i);
    }
}

/// A whole length-prefixed frame extracts to its body's parse, leaving
/// whatever follows pending.
pub proof fn lemma_frame_lp_extracts(body: Seq<u8>, rest: Seq<u8>)
    requires
        body.len() < 0x1_0000_0000,
    ensures
        next_message_lp(frame_bytes(body, FrameVariant::LengthPrefixed) + rest) == (
        match parse_message(body) {
            Some(m) => SpecStep::Msg(m, rest),
            None => SpecStep::Corrupt,
        }),
{
    let n = body.len() as u32;
    let p = frame_bytes(body, FrameVariant::LengthPrefixed) + rest;
    lemma_be32_round_trip(n);
    assert(p[0] == (n >> 24) as u8);
    assert(p[1] == (n >> 16) as u8);
    assert(p[2] == (n >> 8) as u8);
    assert(p[3] == n as u8);
    assert(p.subrange(4, 4 + n as int) =~= body);
    assert(p.skip(4 + n as int) =~= rest);
}

/// A whole terminator-delimited frame around a parseable body extracts to
/// that parse, embedded sentinel bytes notwithstanding: a sentinel inside
/// the body cannot close a frame, because the bytes before it never parse.
pub proof fn lemma_frame_term_extracts(body: Seq<u8>, rest: Seq<u8>)
    requires
        body.len() > 0,
        parse_message(body) is Some,
    ensures
        next_message_term(frame_bytes(body, FrameVariant::TerminatorDelimited) + rest, 0)
            == SpecStep::Msg(parse_message(body)->Some_0, rest),
{
    let p = frame_bytes(body, FrameVariant::TerminatorDelimited) + rest;
    let n = body.len() as int;
    assert(body[0] != FRAME_TERMINATOR);
    assert forall|j: int| 0 <= j < n implies dead_position(p, j) by {
        assert(p[j] == body[j]);
        if p[j] == FRAME_TERMINATOR {
            assert(j > 0);
            lemma_prefix_fails_at_unknown_tag(body, j);
            assert(p.take(j) =~= body.take(j));
        }
    }
    lemma_scan_irrelevant(p, n);
    assert(p[n] == FRAME_TERMINATOR);
    assert(find_terminator(p, n) == Some(n));
    assert(p.take(n) =~= body);
    assert(p.skip(n + 1) =~= rest);
}

/// An extracted message stays the same when more bytes arrive after it.
pub proof fn lemma_next_message_extend(p: Seq<u8>, c: Seq<u8>, variant: FrameVariant)
    ensures
        next_message(p, variant) matches SpecStep::Msg(m, rest) ==> next_message(p + c, variant)
            == SpecStep::Msg(m, rest + c),
{
    match variant {
        FrameVariant::LengthPrefixed => {
            if p.len() >= 4 {
                let n = be32(p[0], p[1], p[2], p[3]) as int;
                assert((p + c)[0] == p[0]);
                assert((p + c)[1] == p[1]);
                assert((p + c)[2] == p[2]);
                assert((p + c)[3] == p[3]);
                if p.len() - 4 >= n {
                    assert((p + c).subrange(4, 4 + n) =~= p.subrange(4, 4 + n));
                    assert((p + c).skip(4 + n) =~= p.skip(4 + n) + c);
                }
            }
        },
        FrameVariant::TerminatorDelimited => {
            lemma_next_term_extend(p, c, 0);
        },
    }
}

/// `lemma_next_message_extend` for the terminator framing, generalized over
/// the scan position.
proof fn lemma_next_term_extend(p: Seq<u8>, c: Seq<u8>, from: int)
    requires
        0 <= from <= p.len(),
    ensures
        next_message_term(p, from) matches SpecStep::Msg(m, rest) ==> next_message_term(
            p + c,
            from,
        ) == SpecStep::Msg(m, rest + c),
    decreases p.len(), p.len() - from,
{
    lemma_find_terminator(p, from);
    match find_terminator(p, from) {
        None => {},
        Some(i) => {
            lemma_find_terminator_exact(p + c, from, i);
            if i == 0 {
                assert((p + c).skip(1) =~= p.skip(1) + c);
                lemma_next_term_extend(p.skip(1), c, 0);
            } else {
                assert((p + c).take(i) =~= p.take(i));
                match parse_message(p.take(i)) {
                    Some(m0) => {
                        assert((p + c).skip(i + 1) =~= p.skip(i + 1) + c);
                    },
                    None => {
                        lemma_next_term_extend(p, c, i + 1);
                    },
                }
            }
        },
    }
}

/// Extracting a message always consumes at least one byte.
pub proof fn lemma_next_message_consumes(p: Seq<u8>, variant: FrameVariant)
    ensures
        next_message(p, variant) matches SpecStep::Msg(m, rest) ==> rest.len() < p.len(),
{
    match variant {
        FrameVariant::LengthPrefixed => {},
        FrameVariant::TerminatorDelimited => {
            lemma_next_term_consumes(p, 0);
        },
    }
}

/// `lemma_next_message_consumes` for the terminator framing, generalized
/// over the scan position.
proof fn lemma_next_term_consumes(p: Seq<u8>, from: int)
    requires
        0 <= from <= p.len(),
    ensures
        next_message_term(p, from) matches SpecStep::Msg(m, rest) ==> rest.len() < p.len(),
    decreases p.len(), p.len() - from,
{
    lemma_find_terminator(p, from);
    match find_terminator(p, from) {
        None => {},
        Some(i) => {
            if i == 0 {
                lemma_next_term_consumes(p.skip(1), 0);
            } else {
                if parse_message(p.take(i)) is None {
                    lemma_next_term_consumes(p, i + 1);
                }
            }
        },
    }
}

/// Encodes one frame around `body` in the given framing.
pub fn encode_frame(body: &[u8], variant: FrameVariant) -> (out: Vec<u8>)
    requires
        variant is LengthPrefixed ==> body@.len() < 0x1_0000_0000,
    ensures
        out@ == frame_bytes(body@, variant),
{
    match variant {
        FrameVariant::LengthPrefixed => {
            let n = body.len() as u32;
            let mut out: Vec<u8> = Vec::new();
            out.push((n >> 24) as u8);
            out.push((n >> 16) as u8);
            out.push((n >> 8) as u8);
            out.push(n as u8);
            out.extend_from_slice(body);
            assert(out@ =~= be32_bytes(n) + body@);
            out
        },
        FrameVariant::TerminatorDelimited => {
            let mut out = vstd::slice::slice_to_vec(body);
            out.push(FRAME_TERMINATOR);
            assert(out@ =~= body@ + seq![FRAME_TERMINATOR]);
            out
        },
    }
}

/// One extraction attempt's outcome, as handed to callers.
#[derive(Debug)]
pub enum PollMsg {
    /// Nothing whole is buffered; the caller should deliver more bytes.
    NeedData,
    /// One structured message.
    Msg(WireMessage),
    /// A length-prefixed body failed to parse; the stream is unusable.
    Corrupt,
}

/// Accumulates delivered bytes and extracts structured messages one at a
/// time, under the framing fixed at construction.
#[derive(Debug)]
pub struct FrameReceiver {
    variant: FrameVariant,
    data: Vec<u8>,
    offset: usize,
    scan: usize,
}

impl FrameReceiver {
    /// The framing this receiver extracts.
    pub closed spec fn framing(&self) -> FrameVariant {
        self.variant
    }

    /// The delivered bytes not yet consumed.
    pub closed spec fn pending(&self) -> Seq<u8> {
        self.data@.skip(self.offset as int)
    }

    /// How many bytes the internal buffer holds, consumed prefix included.
    pub closed spec fn retained(&self) -> int {
        self.data@.len() as int
    }

    /// Internal consistency: the consumed offset lies within the buffer,
    /// and the remembered scan position covers only dead positions.
    pub closed spec fn wf(&self) -> bool {
        &&& self.offset <= self.data@.len()
        &&& match self.variant {
            FrameVariant::LengthPrefixed => self.scan == 0,
            FrameVariant::TerminatorDelimited => {
                &&& self.offset + self.scan <= self.data@.len()
                &&& scanned_dead(self.pending(), self.scan as int)
            },
        }
    }

    /// An empty receiver for the given framing.
    pub fn new(variant: FrameVariant) -> (r: FrameReceiver)
        ensures
            r.wf(),
            r.framing() == variant,
            r.pending() == Seq::<u8>::empty(),
            r.retained() == 0,
    {
        let r = FrameReceiver { variant, data: Vec::new(), offset: 0, scan: 0 };
        assert(r.pending() =~= Seq::<u8>::empty());
        r
    }

    /// How many bytes the internal buffer holds.
    pub fn retained_len(&self) -> (n: usize)
        ensures
            n == self.retained(),
    {
        self.data.len()
    }

    /// How many delivered bytes are still unconsumed.
    pub fn pending_len(&self) -> (n: usize)
        requires
            self.wf(),
        ensures
            n == self.pending().len(),
    {
        self.data.len() - self.offset
    }

    /// Appends one delivered chunk. A buffer whose bytes were all consumed
    /// is recycled first, so steady traffic of whole frames retains nothing
    /// between deliveries.
    pub fn feed(&mut self, chunk: &[u8])
        requires
            old(self).wf(),
        ensures
            final(self).wf(),
            final(self).framing() == old(self).framing(),
            final(self).pending() == old(self).pending() + chunk@,
            final(self).retained() <= old(self).retained() + chunk@.len(),
            old(self).pending().len() == 0 ==> final(self).retained() == chunk@.len(),
    {
        let ghost p0 = self.pending();
        let ghost k = self.scan as int;
        if self.offset == self.data.len() {
            self.data.clear();
            self.offset = 0;
        }
        self.data.extend_from_slice(chunk);
        assert(final(self).pending() =~= p0 + chunk@);
        proof {
            let p1 = p0 + chunk@;
            assert forall|j: int| 0 <= j < k implies dead_position(p1, j) by {
                assert(dead_position(p0, j));
                assert(p1[j] == p0[j]);
                assert(p1.take(j) =~= p0.take(j));
            }
        }
    }

    /// Attempts to extract one structured message.
    ///
    /// The outcome is determined by the unconsumed bytes alone. On
    /// `NeedData` nothing extractable is buffered, and the outcome for any
    /// future delivery is unchanged. On `Msg` the message and the bytes
    /// left pending are exactly what `next_message` gives; a buffer fully
    /// consumed by the frame is released. On `Corrupt` the pending bytes
    /// are kept as they are.
    pub fn poll(&mut self) -> (r: PollMsg)
        requires
            old(self).wf(),
        ensures
            final(self).wf(),
            final(self).framing() == old(self).framing(),
            match r {
                PollMsg::NeedData => {
                    &&& next_message(old(self).pending(), old(self).framing()) is NeedData
                    &&& next_message(final(self).pending(), old(self).framing()) is NeedData
                    &&& forall|c: Seq<u8>|
                        next_message(final(self).pending() + c, old(self).framing())
                            == next_message(old(self).pending() + c, old(self).framing())
                },
                PollMsg::Msg(m) => {
                    &&& next_message(old(self).pending(), old(self).framing()) == SpecStep::Msg(
                        m@,
                        final(self).pending(),
                    )
                    &&& (final(self).pending().len() == 0 ==> final(self).retained() == 0)
                },
                PollMsg::Corrupt => {
                    &&& next_message(old(self).pending(), old(self).framing()) is Corrupt
                    &&& final(self).pending() == old(self).pending()
                },
            },
    {
        match self.variant {
            FrameVariant::LengthPrefixed => self.poll_length_prefixed(),
            FrameVariant::TerminatorDelimited => self.poll_terminated(),
        }
    }

    /// `poll` under the length-prefixed framing.
    fn poll_length_prefixed(&mut self) -> (r: PollMsg)
        requires
            old(self).wf(),
            old(self).framing() == FrameVariant::LengthPrefixed,
        ensures
            final(self).wf(),
            final(self).framing() == old(self).framing(),
            match r {
                PollMsg::NeedData => {
                    &&& next_message(old(self).pending(), old(self).framing()) is NeedData
                    &&& *final(self) == *old(self)
                },
                PollMsg::Msg(m) => {
                    &&& next_message(old(self).pending(), old(self).framing()) == SpecStep::Msg(
                        m@,
                        final(self).pending(),
                    )
                    &&& (final(self).pending().len() == 0 ==> final(self).retained() == 0)
                },
                PollMsg::Corrupt => {
                    &&& next_message(old(self).pending(), old(self).framing()) is Corrupt
                    &&& *final(self) == *old(self)
                },
            },
    {
        let ghost p = self.pending();
        let avail = self.data.len() - self.offset;
        if avail < 4 {
            return PollMsg::NeedData;
        }
        let b0 = self.data[self.offset];
        let b1 = self.data[self.offset + 1];
        let b2 = self.data[self.offset + 2];
        let b3 = self.data[self.offset + 3];
        assert(b0 == p[0] && b1 == p[1] && b2 == p[2] && b3 == p[3]);
        let n: u32 = ((b0 as u32) << 24) | ((b1 as u32) << 16) | ((b2 as u32) << 8) | (b3 as u32);
        if (n as u64) > ((avail - 4) as u64) {
            return PollMsg::NeedData;
        }
        let n_us = n as usize;
        let start = self.offset + 4;
        let body_slice = vstd::slice::slice_subrange(self.data.as_slice(), start, start + n_us);
        assert(body_slice@ =~= p.subrange(4, 4 + n as int));
        match parse_wire_message(body_slice) {
            None => PollMsg::Corrupt,
            Some(msg) => {
                self.offset = start + n_us;
                assert(self.pending() =~= p.skip(4 + n as int));
                if self.offset == self.data.len() {
                    self.data.clear();
                    self.offset = 0;
                    assert(self.pending() =~= p.skip(4 + n as int));
                }
                PollMsg::Msg(msg)
            },
        }
    }

    /// `poll` under the terminator-delimited framing.
    fn poll_terminated(&mut self) -> (r: PollMsg)
        requires
            old(self).wf(),
            old(self).framing() == FrameVariant::TerminatorDelimited,
        ensures
            final(self).wf(),
            final(self).framing() == old(self).framing(),
            match r {
                PollMsg::NeedData => {
                    &&& next_message(old(self).pending(), old(self).framing()) is NeedData
                    &&& next_message(final(self).pending(), old(self).framing()) is NeedData
                    &&& forall|c: Seq<u8>|
                        next_message(final(self).pending() + c, old(self).framing())
                            == next_message(old(self).pending() + c, old(self).framing())
                },
                PollMsg::Msg(m) => {
                    &&& next_message(old(self).pending(), old(self).framing()) == SpecStep::Msg(
                        m@,
                        final(self).pending(),
                    )
                    &&& (final(self).pending().len() == 0 ==> final(self).retained() == 0)
                },
                PollMsg::Corrupt => false,
            },
    {
        let ghost p_orig = self.pending();
        let data_len = self.data.len();
        let mut offset = self.offset;
        let mut scan = self.scan;
        let mut found: Option<WireMessage> = None;
        loop
            invariant_except_break
                found is None,
                forall|c: Seq<u8>|
                    next_message_term(self.data@.skip(offset as int) + c, 0)
                        == next_message_term(p_orig + c, 0),
            invariant
                offset + scan <= data_len,
                data_len == self.data@.len(),
                scanned_dead(self.data@.skip(offset as int), scan as int),
            ensures
                match found {
                    None => {
                        &&& next_message_term(self.data@.skip(offset as int), 0)
                            is NeedData
                        &&& next_message_term(p_orig, 0) is NeedData
                        &&& forall|c: Seq<u8>|
                            next_message_term(self.data@.skip(offset as int) + c, 0)
                                == next_message_term(p_orig + c, 0)
                    },
                    Some(msg) => next_message_term(p_orig, 0) == SpecStep::Msg(
                        msg@,
                        self.data@.skip(offset as int),
                    ),
                },
            decreases data_len - offset, data_len - offset - scan,
        {
            let ghost p = self.data@.skip(offset as int);
            let mut j = offset + scan;
            while j < data_len && self.data[j] != FRAME_TERMINATOR
                invariant
                    offset + scan <= j <= data_len,
                    data_len == self.data@.len(),
                    forall|k: int| offset + scan <= k < j ==> self.data@[k] != FRAME_TERMINATOR,
                decreases data_len - j,
            {
                j = j + 1;
            }
            if j == data_len {
                proof {
                    assert forall|rel: int| 0 <= rel < p.len() implies dead_position(p, rel) by {
                        if rel >= scan {
                            assert(p[rel] == self.data@[offset + rel]);
                            assert(self.data@[offset + rel] != FRAME_TERMINATOR);
                        }
                    }
                    lemma_all_dead_needs_data(p, 0);
                    assert(next_message_term(p + Seq::<u8>::empty(), 0) == next_message_term(
                        p_orig + Seq::<u8>::empty(),
                        0,
                    ));
                    assert(p + Seq::<u8>::empty() =~= p);
                    assert(p_orig + Seq::<u8>::empty() =~= p_orig);
                }
                scan = data_len - offset;
                break;
            }
            assert(self.data@[j as int] == FRAME_TERMINATOR);
            let rel = j - offset;
            assert(p[rel as int] == FRAME_TERMINATOR);
            if rel == 0 {
                proof {
                    assert forall|c: Seq<u8>|
                        next_message_term(p.skip(1) + c, 0) == next_message_term(
                            p_orig + c,
                            0,
                        ) by {
                        lemma_skip_stray(p, c);
                    }
                }
                offset = offset + 1;
                scan = 0;
                assert(self.data@.skip(offset as int) =~= p.skip(1));
            } else {
                let body_slice = vstd::slice::slice_subrange(self.data.as_slice(), offset, j);
                assert(body_slice@ =~= p.take(rel as int));
                proof {
                    lemma_scan_irrelevant(p, scan as int);
                    lemma_find_terminator_exact(p, scan as int, rel as int);
                }
                match parse_wire_message(body_slice) {
                    Some(msg) => {
                        proof {
                            assert(next_message_term(p, scan as int) == SpecStep::Msg(
                                msg@,
                                p.skip(rel as int + 1),
                            ));
                            assert(next_message_term(p + Seq::<u8>::empty(), 0)
                                == next_message_term(p_orig + Seq::<u8>::empty(), 0));
                            assert(p + Seq::<u8>::empty() =~= p);
                            assert(p_orig + Seq::<u8>::empty() =~= p_orig);
                        }
                        offset = j + 1;
                        scan = 0;
                        assert(self.data@.skip(offset as int) =~= p.skip(rel as int + 1));
                        found = Some(msg);
                        break;
                    },
                    None => {
                        proof {
                            assert forall|q: int| 0 <= q < rel + 1 implies dead_position(
                                p,
                                q,
                            ) by {
                                if q >= scan && p[q] == FRAME_TERMINATOR {
                                    assert(q == rel);
                                }
                            }
                        }
                        scan = rel + 1;
                    },
                }
            }
        }
        self.offset = offset;
        self.scan = scan;
        let ghost p_after = self.data@.skip(offset as int);
        if offset == data_len {
            self.data.clear();
            self.offset = 0;
            self.scan = 0;
            assert(self.pending() =~= p_after);
        }
        assert(self.pending() == p_after);
        match found {
            Some(msg) => PollMsg::Msg(msg),
            None => {
                proof {
                    assert(next_message(p_orig, FrameVariant::TerminatorDelimited)
                        == next_message_term(p_orig, 0));
                    assert(next_message(p_after, FrameVariant::TerminatorDelimited)
                        == next_message_term(p_after, 0));
                    assert forall|c: Seq<u8>|
                        next_message(p_after + c, FrameVariant::TerminatorDelimited)
                            == next_message(p_orig + c, FrameVariant::TerminatorDelimited) by {
                        assert(next_message_term(p_after + c, 0) == next_message_term(
                            p_orig + c,
                            0,
                        ));
                    }
                }
                PollMsg::NeedData
            },
        }
    }
}

} // verus!

