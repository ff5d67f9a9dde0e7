//! The structured message layer of the wire protocol.
//!
//! A message is a record of up to four optional fields, serialized as a
//! protocol-buffers-style sequence of tagged fields: a one-byte tag (field
//! number and wire kind) followed by a varint scalar or a varint-length-
//! prefixed byte string. Requests and responses share the same shape:
//! an identifier, a type tag, a primary byte-string field (`buf`) and a
//! secondary one (`val`).
//!
//! Parsing consumes the whole body; any unknown tag byte, truncated varint
//! or short byte string makes the body malformed. When the same field occurs
//! twice, the later occurrence wins.

use vstd::prelude::*;

use crate::varint::{
    lemma_take_varint_bounds, lemma_take_varint_extend, lemma_varint_round_trip, read_varint,
    take_varint, varint_bytes, write_varint, VARINT_MAX,
};

verus! {

/// Tag byte of the identifier field: field 1, varint.
pub const TAG_ID: u8 = 0x08;

/// Tag byte of the type field: field 2, varint.
pub const TAG_TYPE: u8 = 0x10;

/// Tag byte of the primary byte-string field: field 3, length-delimited.
pub const TAG_BUF: u8 = 0x1A;

/// Tag byte of the secondary byte-string field: field 4, length-delimited.
pub const TAG_VAL: u8 = 0x22;

/// The mathematical shape of a wire message.
#[verifier::ext_equal]
pub struct WireModel {
    pub id: Option<int>,
    pub typ: Option<int>,
    pub buf: Option<Seq<u8>>,
    pub val: Option<Seq<u8>>,
}

/// A wire message as built and exchanged at run time.
#[derive(Debug, PartialEq)]
pub struct WireMessage {
    pub id: Option<u64>,
    pub typ: Option<u64>,
    pub buf: Option<Vec<u8>>,
    pub val: Option<Vec<u8>>,
}

impl View for WireMessage {
    type V = WireModel;

    open spec fn view(&self) -> WireModel {
        WireModel {
            id: match self.id {
                Some(v) => Some(v as int),
                None => None,
            },
            typ: match self.typ {
                Some(v) => Some(v as int),
                None => None,
            },
            buf: match self.buf {
                Some(b) => Some(b@),
                None => None,
            },
            val: match self.val {
                Some(b) => Some(b@),
                None => None,
            },
        }
    }
}

impl WireMessage {
    /// A message with every field absent.
    pub fn new() -> (m: WireMessage)
        ensures
            m@ == empty_model(),
    {
        WireMessage { id: None, typ: None, buf: None, val: None }
    }
}

/// The model with every field absent; what parsing starts from.
pub open spec fn empty_model() -> WireModel {
    WireModel { id: None, typ: None, buf: None, val: None }
}

/// Field bounds under which a model can be serialized: scalars and lengths
/// must fit in a varint.
pub open spec fn wf_model(m: WireModel) -> bool {
    &&& (m.id matches Some(v) ==> 0 <= v <= VARINT_MAX)
    &&& (m.typ matches Some(v) ==> 0 <= v <= VARINT_MAX)
    &&& (m.buf matches Some(b) ==> b.len() <= VARINT_MAX)
    &&& (m.val matches Some(b) ==> b.len() <= VARINT_MAX)
}

/// One serialized scalar field.
pub open spec fn varint_field(tag: u8, v: int) -> Seq<u8> {
    seq![tag] + varint_bytes(v)
}

/// One serialized byte-string field.
pub open spec fn bytes_field(tag: u8, b: Seq<u8>) -> Seq<u8> {
    seq![tag] + varint_bytes(b.len() as int) + b
}

/// A scalar field, or nothing when absent.
pub open spec fn opt_varint_field(tag: u8, o: Option<int>) -> Seq<u8> {
    match o {
        Some(v) => varint_field(tag, v),
        None => Seq::empty(),
    }
}

/// A byte-string field, or nothing when absent.
pub open spec fn opt_bytes_field(tag: u8, o: Option<Seq<u8>>) -> Seq<u8> {
    match o {
        Some(b) => bytes_field(tag, b),
        None => Seq::empty(),
    }
}

/// The serialization of a whole model: its present fields in ascending
/// field order.
pub open spec fn encode_model(m: WireModel) -> Seq<u8> {
    opt_varint_field(TAG_ID, m.id) + opt_varint_field(TAG_TYPE, m.typ) + opt_bytes_field(
        TAG_BUF,
        m.buf,
    ) + opt_bytes_field(TAG_VAL, m.val)
}

/// One decoded field.
pub enum FieldVal {
    IdField(int),
    TypeField(int),
    BufField(Seq<u8>),
    ValField(Seq<u8>),
}

/// Reads one field from the front of `s`: the field and the bytes consumed,
/// or `None` on an unknown tag or truncated contents.
pub open spec fn take_field(s: Seq<u8>) -> Option<(FieldVal, int)> {
    if s.len() == 0 {
        None
    } else if s[0] == TAG_ID || s[0] == TAG_TYPE {
        match take_varint(s.skip(1)) {
            None => None,
            Some((v, n)) => Some(
                (
                    if s[0] == TAG_ID {
                        FieldVal::IdField(v)
                    } else {
                        FieldVal::TypeField(v)
                    },
                    1 + n,
                ),
            ),
        }
    } else if s[0] == TAG_BUF || s[0] == TAG_VAL {
        match take_varint(s.skip(1)) {
            None => None,
            Some((len, n)) => if 1 + n + len <= s.len() {
                Some(
                    (
                        if s[0] == TAG_BUF {
                            FieldVal::BufField(s.subrange(1 + n, 1 + n + len))
                        } else {
                            FieldVal::ValField(s.subrange(1 + n, 1 + n + len))
                        },
                        1 + n + len,
                    ),
                )
            } else {
                None
            },
        }
    } else {
        None
    }
}

/// Stores one decoded field into the model; a repeated field overwrites.
pub open spec fn apply_field(m: WireModel, f: FieldVal) -> WireModel {
    match f {
        FieldVal::IdField(v) => WireModel { id: Some(v), ..m },
        FieldVal::TypeField(v) => WireModel { typ: Some(v), ..m },
        FieldVal::BufField(b) => WireModel { buf: Some(b), ..m },
        FieldVal::ValField(b) => WireModel { val: Some(b), ..m },
    }
}

/// Parses fields from `s` into `m` until `s` is exhausted; `None` as soon as
/// one field is malformed.
pub open spec fn parse_fields(s: Seq<u8>, m: WireModel) -> Option<WireModel>
    decreases s.len(),
{
    if s.len() == 0 {
        Some(m)
    } else {
        match take_field(s) {
            None => None,
            Some((f, n)) => if 1 <= n <= s.len() {
                parse_fields(s.skip(n), apply_field(m, f))
            } else {
                None
            },
        }
    }
}

/// The parse of a whole message body.
pub open spec fn parse_message(s: Seq<u8>) -> Option<WireModel> {
    parse_fields(s, empty_model())
}

/// A field occupies one to `s.len()` bytes.
pub proof fn lemma_take_field_bounds(s: Seq<u8>)
    ensures
        take_field(s) matches Some((f, n)) ==> 1 <= n <= s.len(),
{
    lemma_take_varint_bounds(s.skip(1));
}

/// A field never reads past the bytes that encode it: appending input leaves
/// an already-read field unchanged.
pub proof fn lemma_take_field_extend(s: Seq<u8>, t: Seq<u8>)
    ensures
        take_field(s) matches Some((f, n)) ==> take_field(s + t) == Some((f, n)),
{
    if s.len() > 0 && take_field(s) is Some {
        assert((s + t)[0] == s[0]);
        assert((s + t).skip(1) =~= s.skip(1) + t);
        lemma_take_varint_extend(s.skip(1), t);
        lemma_take_varint_bounds(s.skip(1));
        if s[0] == TAG_BUF || s[0] == TAG_VAL {
            let (len, n) = take_varint(s.skip(1))->Some_0;
            if 1 + n + len <= s.len() {
                assert((s + t).subrange(1 + n, 1 + n + len) =~= s.subrange(1 + n, 1 + n + len));
            }
        }
    }
}

/// Parsing a well-formed prefix then continuing equals parsing the
/// concatenation: fields never straddle the boundary of a parsed prefix.
pub proof fn lemma_parse_fields_extend(s: Seq<u8>, t: Seq<u8>, m: WireModel)
    ensures
        parse_fields(s, m) matches Some(m2) ==> parse_fields(s + t, m) == parse_fields(t, m2),
    decreases s.len(),
{
    if s.len() == 0 {
        assert(s + t =~= t);
    } else if parse_fields(s, m) is Some {
        let (f, n) = take_field(s)->Some_0;
        lemma_take_field_extend(s, t);
        lemma_take_field_bounds(s);
        assert((s + t).skip(n) =~= s.skip(n) + t);
        lemma_parse_fields_extend(s.skip(n), t, apply_field(m, f));
    }
}

/// A parseable body cannot have a parseable strict prefix that is followed
/// by a byte that is no field tag: the continued parse would stop there.
pub proof fn lemma_prefix_fails_at_unknown_tag(body: Seq<u8>, i: int)
    requires
        parse_message(body) is Some,
        0 <= i < body.len(),
        body[i] != TAG_ID,
        body[i] != TAG_TYPE,
        body[i] != TAG_BUF,
        body[i] != TAG_VAL,
    ensures
        parse_message(body.take(i)) is None,
{
    if parse_message(body.take(i)) is Some {
        let m2 = parse_message(body.take(i))->Some_0;
        lemma_parse_fields_extend(body.take(i), body.skip(i), empty_model());
        assert(body.take(i) + body.skip(i) =~= body);
        assert(body.skip(i)[0] == body[i]);
        assert(take_field(body.skip(i)) is None);
        assert(parse_fields(body.skip(i), m2) is None);
    }
}

/// Parsing one serialized scalar field consumes exactly that field.
proof fn lemma_parse_varint_field(tag: u8, v: int, rest: Seq<u8>, m: WireModel)
    requires
        tag == TAG_ID || tag == TAG_TYPE,
        0 <= v <= VARINT_MAX,
    ensures
        parse_fields(varint_field(tag, v) + rest, m) == parse_fields(
            rest,
            apply_field(
                m,
                if tag == TAG_ID {
                    FieldVal::IdField(v)
                } else {
                    FieldVal::TypeField(v)
                },
            ),
        ),
{
    let s = varint_field(tag, v) + rest;
    assert(s[0] == tag);
    assert(s.skip(1) =~= varint_bytes(v) + rest);
    lemma_varint_round_trip(v, rest);
    let n = varint_bytes(v).len() as int;
    assert(s.skip(1 + n) =~= rest);
}

/// Parsing one serialized byte-string field consumes exactly that field.
proof fn lemma_parse_bytes_field(tag: u8, b: Seq<u8>, rest: Seq<u8>, m: WireModel)
    requires
        tag == TAG_BUF || tag == TAG_VAL,
        b.len() <= VARINT_MAX,
    ensures
        parse_fields(bytes_field(tag, b) + rest, m) == parse_fields(
            rest,
            apply_field(
                m,
                if tag == TAG_BUF {
                    FieldVal::BufField(b)
                } else {
                    FieldVal::ValField(b)
                },
            ),
        ),
{
    let s = bytes_field(tag, b) + rest;
    assert(s[0] == tag);
    assert(s.skip(1) =~= varint_bytes(b.len() as int) + (b + rest));
    lemma_varint_round_trip(b.len() as int, b + rest);
    let n = varint_bytes(b.len() as int).len() as int;
    let len = b.len() as int;
    assert(s.len() == 1 + n + len + rest.len());
    assert(s.subrange(1 + n, 1 + n + len) =~= b);
    assert(s.skip(1 + n + len) =~= rest);
}

/// Round trip: a well-formed model serialized by `encode_model` parses back
/// to itself.
pub proof fn lemma_model_round_trip(m: WireModel)
    requires
        wf_model(m),
    ensures
        parse_message(encode_model(m)) == Some(m),
{
    let e2 = opt_varint_field(TAG_TYPE, m.typ);
    let e3 = opt_bytes_field(TAG_BUF, m.buf);
    let e4 = opt_bytes_field(TAG_VAL, m.val);
    let m0 = empty_model();
    assert(encode_model(m) =~= opt_varint_field(TAG_ID, m.id) + (e2 + (e3 + e4)));
    let m1 = match m.id {
        Some(v) => apply_field(m0, FieldVal::IdField(v)),
        None => m0,
    };
    assert(parse_fields(encode_model(m), m0) == parse_fields(e2 + (e3 + e4), m1)) by {
        match m.id {
            Some(v) => lemma_parse_varint_field(TAG_ID, v, e2 + (e3 + e4), m0),
            None => assert(opt_varint_field(TAG_ID, m.id) + (e2 + (e3 + e4)) =~= e2 + (e3 + e4)),
        }
    }
    let m2 = match m.typ {
        Some(v) => apply_field(m1, FieldVal::TypeField(v)),
        None => m1,
    };
    assert(parse_fields(e2 + (e3 + e4), m1) == parse_fields(e3 + e4, m2)) by {
        match m.typ {
            Some(v) => lemma_parse_varint_field(TAG_TYPE, v, e3 + e4, m1),
            None => assert(e2 + (e3 + e4) =~= e3 + e4),
        }
    }
    let m3 = match m.buf {
        Some(b) => apply_field(m2, FieldVal::BufField(b)),
        None => m2,
    };
    assert(parse_fields(e3 + e4, m2) == parse_fields(e4, m3)) by {
        match m.buf {
            Some(b) => lemma_parse_bytes_field(TAG_BUF, b, e4, m2),
            None => assert(e3 + e4 =~= e4),
        }
    }
    let m4 = match m.val {
        Some(b) => apply_field(m3, FieldVal::ValField(b)),
        None => m3,
    };
    assert(parse_fields(e4, m3) == parse_fields(Seq::<u8>::empty(), m4)) by {
        match m.val {
            Some(b) => {
                lemma_parse_bytes_field(TAG_VAL, b, Seq::<u8>::empty(), m3);
                assert(e4 + Seq::<u8>::empty() =~= e4);
            },
            None => assert(e4 =~= Seq::<u8>::empty()),
        }
    }
    assert(m4 =~= m);
}

/// The byte budget of an optional byte-string field: its content, one tag
/// byte and at most five length bytes.
pub open spec fn bytes_field_budget(o: Option<Seq<u8>>) -> int {
    match o {
        Some(b) => b.len() as int + 6,
        None => 0,
    }
}

/// A well-formed model serializes within twelve bytes of scalar fields plus
/// the byte-string budgets.
pub proof fn lemma_encode_model_len(m: WireModel)
    requires
        wf_model(m),
    ensures
        encode_model(m).len() <= 12 + bytes_field_budget(m.buf) + bytes_field_budget(m.val),
{
    match m.id {
        Some(v) => lemma_varint_round_trip(v, Seq::<u8>::empty()),
        None => {},
    }
    match m.typ {
        Some(v) => lemma_varint_round_trip(v, Seq::<u8>::empty()),
        None => {},
    }
    match m.buf {
        Some(b) => lemma_varint_round_trip(b.len() as int, Seq::<u8>::empty()),
        None => {},
    }
    match m.val {
        Some(b) => lemma_varint_round_trip(b.len() as int, Seq::<u8>::empty()),
        None => {},
    }
}

/// Serializes `m`; the output is exactly `encode_model` of its view, and it
/// fits within twelve bytes of scalar fields plus the byte-string budgets.
#[verifier::rlimit(60)]
pub fn encode_message(m: &WireMessage) -> (out: Vec<u8>)
    requires
        wf_model(m@),
    ensures
        out@ == encode_model(m@),
        out@.len() <= 12 + bytes_field_budget(m@.buf) + bytes_field_budget(m@.val),
{
    proof {
        lemma_encode_model_len(m@);
    }
    let mut out: Vec<u8> = Vec::new();
    if let Some(v) = m.id {
        out.push(TAG_ID);
        write_varint(&mut out, v);
    }
    assert(out@ =~= opt_varint_field(TAG_ID, m@.id));
    if let Some(v) = m.typ {
        out.push(TAG_TYPE);
        write_varint(&mut out, v);
    }
    assert(out@ =~= opt_varint_field(TAG_ID, m@.id) + opt_varint_field(TAG_TYPE, m@.typ));
    if let Some(b) = &m.buf {
        out.push(TAG_BUF);
        write_varint(&mut out, b.len() as u64);
        out.extend_from_slice(b.as_slice());
    }
    assert(out@ =~= opt_varint_field(TAG_ID, m@.id) + opt_varint_field(TAG_TYPE, m@.typ)
        + opt_bytes_field(TAG_BUF, m@.buf));
    if let Some(b) = &m.val {
        out.push(TAG_VAL);
        write_varint(&mut out, b.len() as u64);
        out.extend_from_slice(b.as_slice());
    }
    assert(out@ =~= encode_model(m@));
    out
}

/// Parses a whole message body; mirrors `parse_message` exactly.
pub fn parse_wire_message(s: &[u8]) -> (r: Option<WireMessage>)
    ensures
        match r {
            Some(msg) => parse_message(s@) == Some(msg@),
            None => parse_message(s@) is None,
        },
{
    let ghost whole = parse_message(s@);
    let mut i: usize = 0;
    let mut msg = WireMessage::new();
    assert(s@.skip(0) =~= s@);
    while i < s.len()
        invariant
            i <= s@.len(),
            parse_fields(s@.skip(i as int), msg@) == whole,
            whole == parse_message(s@),
        decreases s@.len() - i,
    {
        let ghost rest = s@.skip(i as int);
        assert(rest.len() > 0);
        let tag = *vstd::slice::slice_index_get(s, i);
        assert(tag == rest[0]);
        assert(rest.skip(1) =~= s@.skip(i as int + 1));
        if tag == TAG_ID || tag == TAG_TYPE {
            match read_varint(s, i + 1) {
                None => {
                    return None;
                },
                Some((v, n)) => {
                    if tag == TAG_ID {
                        msg.id = Some(v);
                    } else {
                        msg.typ = Some(v);
                    }
                    proof {
                        let (f, c) = take_field(rest)->Some_0;
                        assert(rest.skip(c) =~= s@.skip(i as int + c));
                    }
                    i = i + 1 + n;
                },
            }
        } else if tag == TAG_BUF || tag == TAG_VAL {
            match read_varint(s, i + 1) {
                None => {
                    return None;
                },
                Some((len64, n)) => {
                    let avail = s.len() - i - 1 - n;
                    if len64 > avail as u64 {
                        proof {
                            lemma_take_varint_bounds(rest.skip(1));
                        }
                        return None;
                    }
                    let len = len64 as usize;
                    let body = vstd::slice::slice_to_vec(
                        vstd::slice::slice_subrange(s, i + 1 + n, i + 1 + n + len),
                    );
                    assert(body@ =~= rest.subrange(1 + n as int, 1 + n as int + len as int));
                    if tag == TAG_BUF {
                        msg.buf = Some(body);
                    } else {
                        msg.val = Some(body);
                    }
                    proof {
                        let (f, c) = take_field(rest)->Some_0;
                        assert(rest.skip(c) =~= s@.skip(i as int + c));
                    }
                    i = i + 1 + n + len;
                },
            }
        } else {
            return None;
        }
    }
    assert(s@.skip(i as int) =~= Seq::<u8>::empty());
    Some(msg)
}

} // verus!
