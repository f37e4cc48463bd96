//! The trust-ping handshake envelope and its textual wire form.
//!
//! An envelope is serialized as one JSON-shaped text with a fixed key
//! order and no escape sequences:
//!
//! ```text
//! {"id":"<message_id>","type":"<type>","from":"<from>","body":{"response_requested":<bool>}}
//! ```
//!
//! The three string values are restricted to printable ASCII without `"`
//! and `\`, so the text is valid UTF-8 and every quote in it is a
//! delimiter. `parse_env` is the exact inverse of `serialize_env` on
//! well-formed envelopes.

use vstd::prelude::*;

use crate::bytes::append_bytes;
use crate::bytes::bytes_eq;
use crate::bytes::copy_bytes;

verus! {

/// The delimiter of string values in the envelope text.
pub const QUOTE: u8 = 34;

/// A byte allowed inside a string value: printable ASCII that is neither
/// the quote nor the backslash, so no escaping is ever needed.
pub open spec fn byte_ok(b: u8) -> bool {
    32 <= b <= 126 && b != 34 && b != 92
}

/// Every byte of the value is allowed.
pub open spec fn text_ok(s: Seq<u8>) -> bool {
    forall|i: int| 0 <= i < s.len() ==> byte_ok(#[trigger] s[i])
}

fn check_byte_ok(b: u8) -> (r: bool)
    ensures
        r == byte_ok(b),
{
    32 <= b && b <= 126 && b != 34 && b != 92
}

/// The identity handshake message: built by an initiator, carried as an
/// opaque command payload, parsed back by the responder. The signature of
/// a future version is deliberately absent.
#[derive(Debug, Clone, PartialEq, Eq)]
pub struct TrustPingEnvelope {
    /// Timestamp-derived identifier of this message.
    pub message_id: Vec<u8>,
    /// Type tag; a trust ping carries the fixed trust-ping literal.
    pub typ: Vec<u8>,
    /// The sender's DID text.
    pub from: Vec<u8>,
    /// Whether the sender asks for an acknowledgment.
    pub response_requested: bool,
}

/// Mathematical model of an envelope.
pub struct EnvModel {
    pub message_id: Seq<u8>,
    pub typ: Seq<u8>,
    pub from: Seq<u8>,
    pub response_requested: bool,
}

impl View for TrustPingEnvelope {
    type V = EnvModel;

    open spec fn view(&self) -> EnvModel {
        EnvModel {
            message_id: self.message_id@,
            typ: self.typ@,
            from: self.from@,
            response_requested: self.response_requested,
        }
    }
}

/// A well-formed envelope: every string value is escape-free text.
pub open spec fn env_wf(e: EnvModel) -> bool {
    text_ok(e.message_id) && text_ok(e.typ) && text_ok(e.from)
}

/// Opening of the envelope text, up to the first quote of the id value.
pub open spec fn ser_pre() -> Seq<u8> {
    seq![123u8, 34, 105, 100, 34, 58, 34]
}

/// Between the id value and the type value.
pub open spec fn ser_mid_type() -> Seq<u8> {
    seq![34u8, 44, 34, 116, 121, 112, 101, 34, 58, 34]
}

/// Between the type value and the from value.
pub open spec fn ser_mid_from() -> Seq<u8> {
    seq![34u8, 44, 34, 102, 114, 111, 109, 34, 58, 34]
}

/// Between the from value and the boolean of the body.
pub open spec fn ser_mid_body() -> Seq<u8> {
    seq![34u8, 44, 34, 98, 111, 100, 121, 34, 58, 123, 34, 114, 101, 115, 112, 111, 110, 115, 101, 95, 114, 101, 113, 117, 101, 115, 116, 101, 100, 34, 58]
}

/// The boolean literal `true`.
pub open spec fn ser_text_true() -> Seq<u8> {
    seq![116u8, 114, 117, 101]
}

/// The boolean literal `false`.
pub open spec fn ser_text_false() -> Seq<u8> {
    seq![102u8, 97, 108, 115, 101]
}

/// Closing braces of the body object and the envelope.
pub open spec fn ser_suffix() -> Seq<u8> {
    seq![125u8, 125]
}

/// The fixed type literal that marks a trust ping.
pub open spec fn ser_trust_ping_type() -> Seq<u8> {
    seq![84u8, 114, 117, 115, 116, 80, 105, 110, 103]
}

fn lit_pre() -> (r: Vec<u8>)
    ensures
        r@ == ser_pre(),
{
    let mut v: Vec<u8> = Vec::new();
    v.push(123);
    v.push(34);
    v.push(105);
    v.push(100);
    v.push(34);
    v.push(58);
    v.push(34);
    proof {
        assert(v@ =~= ser_pre());
    }
    v
}

fn lit_mid_type() -> (r: Vec<u8>)
    ensures
        r@ == ser_mid_type(),
{
    let mut v: Vec<u8> = Vec::new();
    v.push(34);
    v.push(44);
    v.push(34);
    v.push(116);
    v.push(121);
    v.push(112);
    v.push(101);
    v.push(34);
    v.push(58);
    v.push(34);
    proof {
        assert(v@ =~= ser_mid_type());
    }
    v
}

fn lit_mid_from() -> (r: Vec<u8>)
    ensures
        r@ == ser_mid_from(),
{
    let mut v: Vec<u8> = Vec::new();
    v.push(34);
    v.push(44);
    v.push(34);
    v.push(102);
    v.push(114);
    v.push(111);
    v.push(109);
    v.push(34);
    v.push(58);
    v.push(34);
    proof {
        assert(v@ =~= ser_mid_from());
    }
    v
}

fn lit_mid_body() -> (r: Vec<u8>)
    ensures
        r@ == ser_mid_body(),
{
    let mut v: Vec<u8> = Vec::new();
    v.push(34);
    v.push(44);
    v.push(34);
    v.push(98);
    v.push(111);
    v.push(100);
    v.push(121);
    v.push(34);
    v.push(58);
    v.push(123);
    v.push(34);
    v.push(114);
    v.push(101);
    v.push(115);
    v.push(112);
    v.push(111);
    v.push(110);
    v.push(115);
    v.push(101);
    v.push(95);
    v.push(114);
    v.push(101);
    v.push(113);
    v.push(117);
    v.push(101);
    v.push(115);
    v.push(116);
    v.push(101);
    v.push(100);
    v.push(34);
    v.push(58);
    proof {
        assert(v@ =~= ser_mid_body());
    }
    v
}

fn lit_true() -> (r: Vec<u8>)
    ensures
        r@ == ser_text_true(),
{
    let mut v: Vec<u8> = Vec::new();
    v.push(116);
    v.push(114);
    v.push(117);
    v.push(101);
    proof {
        assert(v@ =~= ser_text_true());
    }
    v
}

fn lit_false() -> (r: Vec<u8>)
    ensures
        r@ == ser_text_false(),
{
    let mut v: Vec<u8> = Vec::new();
    v.push(102);
    v.push(97);
    v.push(108);
    v.push(115);
    v.push(101);
    proof {
        assert(v@ =~= ser_text_false());
    }
    v
}

fn lit_suffix() -> (r: Vec<u8>)
    ensures
        r@ == ser_suffix(),
{
    let mut v: Vec<u8> = Vec::new();
    v.push(125);
    v.push(125);
    proof {
        assert(v@ =~= ser_suffix());
    }
    v
}

pub fn lit_trust_ping_type() -> (r: Vec<u8>)
    ensures
        r@ == ser_trust_ping_type(),
{
    let mut v: Vec<u8> = Vec::new();
    v.push(84);
    v.push(114);
    v.push(117);
    v.push(115);
    v.push(116);
    v.push(80);
    v.push(105);
    v.push(110);
    v.push(103);
    proof {
        assert(v@ =~= ser_trust_ping_type());
    }
    v
}

/// The text of the boolean in the body.
pub open spec fn bool_text(b: bool) -> Seq<u8> {
    if b {
        ser_text_true()
    } else {
        ser_text_false()
    }
}

/// The serialized text of an envelope.
pub open spec fn serialize_env(e: EnvModel) -> Seq<u8> {
    ser_pre() + e.message_id + ser_mid_type() + e.typ + ser_mid_from() + e.from + ser_mid_body()
        + bool_text(e.response_requested) + ser_suffix()
}

/// Strips an expected literal off the front, or fails.
pub open spec fn strip_lit(b: Seq<u8>, lit: Seq<u8>) -> Option<Seq<u8>> {
    if lit.len() <= b.len() && b.take(lit.len() as int) == lit {
        Some(b.skip(lit.len() as int))
    } else {
        None
    }
}

/// Reads a string value: the allowed bytes before the next quote, which is
/// left in place. Fails on a disallowed byte or a missing quote.
pub open spec fn take_text(b: Seq<u8>) -> Option<(Seq<u8>, Seq<u8>)>
    decreases b.len(),
{
    if b.len() == 0 {
        None
    } else if b[0] == QUOTE {
        Some((Seq::empty(), b))
    } else if byte_ok(b[0]) {
        match take_text(b.skip(1)) {
            Some(p) => Some((seq![b[0]] + p.0, p.1)),
            None => None,
        }
    } else {
        None
    }
}

/// Reads the boolean of the body.
pub open spec fn take_bool(b: Seq<u8>) -> Option<(bool, Seq<u8>)> {
    match strip_lit(b, ser_text_true()) {
        Some(r) => Some((true, r)),
        None => match strip_lit(b, ser_text_false()) {
            Some(r) => Some((false, r)),
            None => None,
        },
    }
}

/// The envelope read back from its serialized text: the literal frame, the
/// three string values and the boolean, with nothing left over.
pub open spec fn parse_env(b: Seq<u8>) -> Option<EnvModel> {
    match strip_lit(b, ser_pre()) {
        None => None,
        Some(r1) => match take_text(r1) {
            None => None,
            Some((message_id, r2)) => match strip_lit(r2, ser_mid_type()) {
                None => None,
                Some(r3) => match take_text(r3) {
                    None => None,
                    Some((typ, r4)) => match strip_lit(r4, ser_mid_from()) {
                        None => None,
                        Some(r5) => match take_text(r5) {
                            None => None,
                            Some((from, r6)) => match strip_lit(r6, ser_mid_body()) {
                                None => None,
                                Some(r7) => match take_bool(r7) {
                                    None => None,
                                    Some((response_requested, r8)) => if r8 == ser_suffix() {
                                        Some(
                                            EnvModel {
                                                message_id,
                                                typ,
                                                from,
                                                response_requested,
                                            },
                                        )
                                    } else {
                                        None
                                    },
                                },
                            },
                        },
                    },
                },
            },
        },
    }
}

proof fn lemma_strip_lit_concat(lit: Seq<u8>, rest: Seq<u8>)
    ensures
        strip_lit(lit + rest, lit) == Some(rest),
{
    assert((lit + rest).take(lit.len() as int) =~= lit);
    assert((lit + rest).skip(lit.len() as int) =~= rest);
}

proof fn lemma_take_text_concat(s: Seq<u8>, rest: Seq<u8>)
    requires
        text_ok(s),
        rest.len() > 0,
        rest[0] == QUOTE,
    ensures
        take_text(s + rest) == Some((s, rest)),
    decreases s.len(),
{
    let b = s + rest;
    if s.len() == 0 {
        assert(b =~= rest);
        assert(take_text(b) == Some((Seq::<u8>::empty(), b)));
        assert(Seq::<u8>::empty() =~= s);
    } else {
        assert(b[0] == s[0]);
        assert(byte_ok(s[0]));
        assert(b.skip(1) =~= s.skip(1) + rest);
        lemma_take_text_concat(s.skip(1), rest);
        assert(seq![b[0]] + s.skip(1) =~= s);
    }
}

/// Structural validity of the handshake text: parsing the serialized form
/// of any well-formed envelope yields that envelope back.
pub proof fn lemma_envelope_round_trip(e: EnvModel)
    requires
        env_wf(e),
    ensures
        parse_env(serialize_env(e)) == Some(e),
{
    let b = serialize_env(e);
    let t8 = ser_suffix();
    let t7 = bool_text(e.response_requested) + t8;
    let t6 = ser_mid_body() + t7;
    let t5 = e.from + t6;
    let t4 = ser_mid_from() + t5;
    let t3 = e.typ + t4;
    let t2 = ser_mid_type() + t3;
    let t1 = e.message_id + t2;
    assert(b =~= ser_pre() + t1);
    lemma_strip_lit_concat(ser_pre(), t1);
    assert(t2[0] == QUOTE);
    lemma_take_text_concat(e.message_id, t2);
    lemma_strip_lit_concat(ser_mid_type(), t3);
    assert(t4[0] == QUOTE);
    lemma_take_text_concat(e.typ, t4);
    lemma_strip_lit_concat(ser_mid_from(), t5);
    assert(t6[0] == QUOTE);
    lemma_take_text_concat(e.from, t6);
    lemma_strip_lit_concat(ser_mid_body(), t7);
    if e.response_requested {
        lemma_strip_lit_concat(ser_text_true(), t8);
        assert(take_bool(t7) == Some((true, t8)));
    } else {
        assert(strip_lit(t7, ser_text_true()) is None) by {
            if strip_lit(t7, ser_text_true()) is Some {
                assert(t7.take(4)[0] == t7[0]);
                assert(t7[0] == 102);
            }
        }
        lemma_strip_lit_concat(ser_text_false(), t8);
        assert(take_bool(t7) == Some((false, t8)));
    }
    assert(parse_env(b) == Some(
        EnvModel {
            message_id: e.message_id,
            typ: e.typ,
            from: e.from,
            response_requested: e.response_requested,
        },
    ));
    assert(EnvModel {
        message_id: e.message_id,
        typ: e.typ,
        from: e.from,
        response_requested: e.response_requested,
    } == e);
}

proof fn lemma_take_text_sound(b: Seq<u8>)
    requires
        take_text(b) is Some,
    ensures
        ({
            let p = take_text(b)->Some_0;
            &&& b == p.0 + p.1
            &&& text_ok(p.0)
            &&& p.1.len() > 0
            &&& p.1[0] == QUOTE
        }),
    decreases b.len(),
{
    let p = take_text(b)->Some_0;
    if b[0] == QUOTE {
        assert(b =~= Seq::<u8>::empty() + b);
    } else {
        lemma_take_text_sound(b.skip(1));
        let q = take_text(b.skip(1))->Some_0;
        assert(b =~= seq![b[0]] + b.skip(1));
        assert(seq![b[0]] + (q.0 + q.1) =~= (seq![b[0]] + q.0) + q.1);
        assert(b == (seq![b[0]] + q.0) + q.1);
        assert forall|i: int| 0 <= i < p.0.len() implies byte_ok(#[trigger] p.0[i]) by {
            if i > 0 {
                assert(p.0[i] == q.0[i - 1]);
            }
        }
    }
}

/// Parsing is sound: a text the parser accepts is exactly the
/// serialization of the well-formed envelope it yields. Together with the
/// round trip, serialization is a bijection onto the texts the parser
/// accepts.
#[verifier::rlimit(100)]
#[verifier::spinoff_prover]
pub proof fn lemma_parse_env_sound(b: Seq<u8>, e: EnvModel)
    requires
        parse_env(b) == Some(e),
    ensures
        env_wf(e),
        b == serialize_env(e),
{
    let r1 = strip_lit(b, ser_pre())->Some_0;
    assert(b =~= ser_pre() + r1);
    lemma_take_text_sound(r1);
    let p1 = take_text(r1)->Some_0;
    let r2 = p1.1;
    let r3 = strip_lit(r2, ser_mid_type())->Some_0;
    assert(r2 =~= ser_mid_type() + r3);
    lemma_take_text_sound(r3);
    let p2 = take_text(r3)->Some_0;
    let r4 = p2.1;
    let r5 = strip_lit(r4, ser_mid_from())->Some_0;
    assert(r4 =~= ser_mid_from() + r5);
    lemma_take_text_sound(r5);
    let p3 = take_text(r5)->Some_0;
    let r6 = p3.1;
    let r7 = strip_lit(r6, ser_mid_body())->Some_0;
    assert(r6 =~= ser_mid_body() + r7);
    let rr = take_bool(r7)->Some_0.0;
    let r8 = take_bool(r7)->Some_0.1;
    assert(r7 =~= bool_text(rr) + r8) by {
        if strip_lit(r7, ser_text_true()) is Some {
            assert(r7 =~= ser_text_true() + r8);
        } else {
            assert(r7 =~= ser_text_false() + r8);
        }
    }
    assert(r8 == ser_suffix());
    assert(e.message_id == p1.0 && e.typ == p2.0 && e.from == p3.0 && e.response_requested == rr);
    assert(b =~= ser_pre() + e.message_id + ser_mid_type() + e.typ + ser_mid_from() + e.from
        + ser_mid_body() + bool_text(e.response_requested) + ser_suffix());
}

/// Serializes an envelope into its textual wire form.
pub fn serialize_trust_ping(env: &TrustPingEnvelope) -> (r: Vec<u8>)
    ensures
        r@ == serialize_env(env@),
{
    let mut out = lit_pre();
    append_bytes(&mut out, &env.message_id);
    let mid_type = lit_mid_type();
    append_bytes(&mut out, &mid_type);
    append_bytes(&mut out, &env.typ);
    let mid_from = lit_mid_from();
    append_bytes(&mut out, &mid_from);
    append_bytes(&mut out, &env.from);
    let mid_body = lit_mid_body();
    append_bytes(&mut out, &mid_body);
    let flag = if env.response_requested {
        lit_true()
    } else {
        lit_false()
    };
    append_bytes(&mut out, &flag);
    let suffix = lit_suffix();
    append_bytes(&mut out, &suffix);
    proof {
        assert(out@ =~= serialize_env(env@));
    }
    out
}

fn match_lit_at(b: &Vec<u8>, pos: usize, lit: &Vec<u8>) -> (r: Option<usize>)
    requires
        pos <= b@.len(),
    ensures
        match r {
            Some(p2) => p2 == pos + lit@.len() && p2 <= b@.len() && strip_lit(
                b@.skip(pos as int),
                lit@,
            ) == Some(b@.skip(p2 as int)),
            None => strip_lit(b@.skip(pos as int), lit@) is None,
        },
{
    if b.len() - pos < lit.len() {
        return None;
    }
    let mut i: usize = 0;
    while i < lit.len()
        invariant
            pos + lit@.len() <= b@.len() <= usize::MAX,
            i <= lit@.len(),
            forall|j: int| 0 <= j < i ==> b@[pos + j] == lit@[j],
        decreases lit@.len() - i,
    {
        if b[pos + i] != lit[i] {
            proof {
                let rem = b@.skip(pos as int);
                let l = lit@.len() as int;
                assert(rem.take(l)[i as int] == b@[pos + i]);
                assert(rem.take(l) != lit@) by {
                    if rem.take(l) == lit@ {
                        assert(rem.take(l)[i as int] == lit@[i as int]);
                    }
                }
            }
            return None;
        }
        i = i + 1;
    }
    proof {
        let rem = b@.skip(pos as int);
        let l = lit@.len() as int;
        assert(rem.take(l) =~= lit@);
        assert(rem.skip(l) =~= b@.skip(pos + l));
    }
    Some(pos + lit.len())
}

proof fn lemma_take_text_scan(b: Seq<u8>, start: int, j: int)
    requires
        0 <= start <= j <= b.len(),
        forall|k: int| start <= k < j ==> byte_ok(#[trigger] b[k]),
    ensures
        j < b.len() && b[j] == QUOTE ==> take_text(b.skip(start)) == Some(
            (b.subrange(start, j), b.skip(j)),
        ),
        j < b.len() && !byte_ok(b[j]) && b[j] != QUOTE ==> take_text(b.skip(start)) is None,
        j == b.len() ==> take_text(b.skip(start)) is None,
    decreases j - start,
{
    if start == j {
        if j < b.len() {
            assert(b.skip(start)[0] == b[j]);
            if b[j] == QUOTE {
                assert(Seq::<u8>::empty() =~= b.subrange(start, j));
                assert(b.skip(start) =~= b.skip(j));
            }
        } else {
            assert(b.skip(start).len() == 0);
        }
    } else {
        assert(b.skip(start)[0] == b[start]);
        assert(byte_ok(b[start]));
        assert(b.skip(start).skip(1) =~= b.skip(start + 1));
        lemma_take_text_scan(b, start + 1, j);
        if j < b.len() && b[j] == QUOTE {
            assert(seq![b[start]] + b.subrange(start + 1, j) =~= b.subrange(start, j));
        }
    }
}

fn scan_text(b: &Vec<u8>, pos: usize) -> (r: Option<(Vec<u8>, usize)>)
    requires
        pos <= b@.len(),
    ensures
        match r {
            Some(p) => pos <= p.1 <= b@.len() && take_text(b@.skip(pos as int)) == Some(
                (p.0@, b@.skip(p.1 as int)),
            ),
            None => take_text(b@.skip(pos as int)) is None,
        },
{
    let mut j: usize = pos;
    while j < b.len()
        invariant
            pos <= j <= b@.len(),
            forall|k: int| pos <= k < j ==> byte_ok(#[trigger] b@[k]),
        decreases b@.len() - j,
    {
        if b[j] == QUOTE {
            let mut content: Vec<u8> = Vec::new();
            let mut k: usize = pos;
            while k < j
                invariant
                    pos <= k <= j <= b@.len(),
                    content@ == b@.subrange(pos as int, k as int),
                decreases j - k,
            {
                content.push(b[k]);
                k = k + 1;
                proof {
                    assert(content@ =~= b@.subrange(pos as int, k as int));
                }
            }
            proof {
                lemma_take_text_scan(b@, pos as int, j as int);
            }
            return Some((content, j));
        }
        if !check_byte_ok(b[j]) {
            proof {
                lemma_take_text_scan(b@, pos as int, j as int);
            }
            return None;
        }
        j = j + 1;
    }
    proof {
        lemma_take_text_scan(b@, pos as int, j as int);
    }
    None
}

/// Parses a payload as a trust-ping envelope; `Some` exactly on texts that
/// the envelope grammar accepts.
#[verifier::rlimit(60)]
pub fn parse_trust_ping(payload: &Vec<u8>) -> (r: Option<TrustPingEnvelope>)
    ensures
        match r {
            Some(env) => parse_env(payload@) == Some(env@),
            None => parse_env(payload@) is None,
        },
{
    proof {
        assert(payload@.skip(0) =~= payload@);
    }
    let pre = lit_pre();
    let p1 = match match_lit_at(payload, 0, &pre) {
        Some(p) => p,
        None => {
            return None;
        },
    };
    let (message_id, p2) = match scan_text(payload, p1) {
        Some(p) => p,
        None => {
            return None;
        },
    };
    let mid_type = lit_mid_type();
    let p3 = match match_lit_at(payload, p2, &mid_type) {
        Some(p) => p,
        None => {
            return None;
        },
    };
    let (typ, p4) = match scan_text(payload, p3) {
        Some(p) => p,
        None => {
            return None;
        },
    };
    let mid_from = lit_mid_from();
    let p5 = match match_lit_at(payload, p4, &mid_from) {
        Some(p) => p,
        None => {
            return None;
        },
    };
    let (from, p6) = match scan_text(payload, p5) {
        Some(p) => p,
        None => {
            return None;
        },
    };
    let mid_body = lit_mid_body();
    let p7 = match match_lit_at(payload, p6, &mid_body) {
        Some(p) => p,
        None => {
            return None;
        },
    };
    let text_true = lit_true();
    let text_false = lit_false();
    let (response_requested, p8) = match match_lit_at(payload, p7, &text_true) {
        Some(p) => (true, p),
        None => match match_lit_at(payload, p7, &text_false) {
            Some(p) => (false, p),
            None => {
                return None;
            },
        },
    };
    let suffix = lit_suffix();
    let ghost r8 = payload@.skip(p8 as int);
    match match_lit_at(payload, p8, &suffix) {
        Some(p9) => {
            if p9 != payload.len() {
                proof {
                    assert(r8 != ser_suffix()) by {
                        if r8 == ser_suffix() {
                            assert(r8.len() == 2);
                        }
                    }
                }
                return None;
            }
            proof {
                assert(r8 =~= ser_suffix()) by {
                    assert(r8.len() == 2);
                    assert(r8.take(2) == ser_suffix());
                    assert(r8.take(2) =~= r8);
                }
            }
            let env = TrustPingEnvelope { message_id, typ, from, response_requested };
            Some(env)
        },
        None => {
            proof {
                assert(r8 != ser_suffix()) by {
                    if r8 == ser_suffix() {
                        assert(r8.take(ser_suffix().len() as int) =~= ser_suffix());
                    }
                }
            }
            None
        },
    }
}

/// The DIDComm message kinds this node understands.
#[derive(Debug, Clone, Copy, PartialEq, Eq, Structural)]
pub enum DIDComm {
    TrustPing,
}

/// The kind of an envelope, decided by its type tag alone.
pub open spec fn classify_env(typ: Seq<u8>) -> Option<DIDComm> {
    if typ == ser_trust_ping_type() {
        Some(DIDComm::TrustPing)
    } else {
        None
    }
}

/// Recognizes the DIDComm kind of a parsed envelope.
pub fn classify_envelope(env: &TrustPingEnvelope) -> (r: Option<DIDComm>)
    ensures
        r == classify_env(env@.typ),
{
    let lit = lit_trust_ping_type();
    if bytes_eq(&env.typ, &lit) {
        Some(DIDComm::TrustPing)
    } else {
        None
    }
}

/// The addressing header of an envelope: who sent it and what it claims
/// to be.
#[derive(Debug, Clone, PartialEq, Eq)]
pub struct Message {
    /// The sender's DID text.
    pub did: Vec<u8>,
    /// The envelope's type tag.
    pub _type: Vec<u8>,
}

/// The header read off a parsed envelope.
pub fn envelope_header(env: &TrustPingEnvelope) -> (r: Message)
    ensures
        r.did@ == env@.from,
        r._type@ == env@.typ,
{
    Message { did: copy_bytes(&env.from), _type: copy_bytes(&env.typ) }
}

} // verus!
