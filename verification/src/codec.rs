//! The frame codec: one line of JSON text to one typed frame and back.
//!
//! A frame with a `method` and an `id` is a request the peer makes of us; a
//! `method` without an `id` is a notification; an `id` without a `method` is
//! a response, carrying either a `result` or an `error` payload. Anything
//! else — including text that is not one JSON object — is malformed, which
//! decoding reports as a recoverable error, never as a panic.

use crate::json::{
    jv, spec_dec_of, spec_digits_len, spec_digits_val, spec_enc_json, spec_parse_text, wf_jsonv,
    Json, JsonV, Member, MemberV,
};
use vstd::prelude::*;

verus! {

/// One decoded unit of the wire protocol.
#[derive(Debug, PartialEq, Eq)]
pub enum Frame {
    Request { method: Vec<u8>, params: Json, id: u64 },
    Response { id: u64, result: Result<Json, Json> },
    Notification { method: Vec<u8>, params: Json },
}

/// The mathematical model of a frame.
pub ghost enum FrameV {
    Request { method: Seq<u8>, params: JsonV, id: u64 },
    Response { id: u64, result: Result<JsonV, JsonV> },
    Notification { method: Seq<u8>, params: JsonV },
}

/// The model of an executable frame.
pub open spec fn fv(f: Frame) -> FrameV {
    match f {
        Frame::Request { method, params, id } => FrameV::Request {
            method: method@,
            params: jv(params),
            id,
        },
        Frame::Response { id, result } => FrameV::Response {
            id,
            result: match result {
                Ok(v) => Ok(jv(v)),
                Err(e) => Err(jv(e)),
            },
        },
        Frame::Notification { method, params } => FrameV::Notification {
            method: method@,
            params: jv(params),
        },
    }
}

impl View for Frame {
    type V = FrameV;

    open spec fn view(&self) -> FrameV {
        fv(*self)
    }
}

/// Why a line failed to decode. Malformed input is recoverable: the reader
/// loop reports it and goes on with the next line.
#[derive(Debug, Clone, Copy, PartialEq, Eq)]
pub enum DecodeError {
    Malformed,
}

/// The `method` key.
pub open spec fn spec_key_method() -> Seq<u8> {
    seq![0x6d, 0x65, 0x74, 0x68, 0x6f, 0x64]
}

/// The `params` key.
pub open spec fn spec_key_params() -> Seq<u8> {
    seq![0x70, 0x61, 0x72, 0x61, 0x6d, 0x73]
}

/// The `id` key.
pub open spec fn spec_key_id() -> Seq<u8> {
    seq![0x69, 0x64]
}

/// The `result` key.
pub open spec fn spec_key_result() -> Seq<u8> {
    seq![0x72, 0x65, 0x73, 0x75, 0x6c, 0x74]
}

/// The `error` key.
pub open spec fn spec_key_error() -> Seq<u8> {
    seq![0x65, 0x72, 0x72, 0x6f, 0x72]
}

/// The value under the first member with the given key, if any.
pub open spec fn spec_get(ms: Seq<MemberV>, key: Seq<u8>) -> Option<JsonV>
    decreases ms.len(),
{
    if ms.len() == 0 {
        None
    } else if ms[0].key == key {
        Some(ms[0].value)
    } else {
        spec_get(ms.drop_first(), key)
    }
}

/// A number literal read as a request identifier: plain digits whose value
/// fits in a `u64`.
pub open spec fn spec_id_of(lex: Seq<u8>) -> Option<u64> {
    if lex.len() > 0 && spec_digits_len(lex) == lex.len() && spec_digits_val(lex) <= u64::MAX {
        Some(spec_digits_val(lex) as u64)
    } else {
        None
    }
}

/// The member a response's payload serializes to: `result` on success,
/// `error` on failure.
pub open spec fn spec_payload_member(result: Result<JsonV, JsonV>) -> MemberV {
    match result {
        Ok(v) => MemberV { key: spec_key_result(), value: v },
        Err(e) => MemberV { key: spec_key_error(), value: e },
    }
}

/// The JSON object a frame serializes to.
pub open spec fn spec_json_of_frame(fr: FrameV) -> JsonV {
    match fr {
        FrameV::Request { method, params, id } => JsonV::Obj(
            seq![
                MemberV { key: spec_key_method(), value: JsonV::Str(method) },
                MemberV { key: spec_key_params(), value: params },
                MemberV { key: spec_key_id(), value: JsonV::Num(spec_dec_of(id as nat)) },
            ],
        ),
        FrameV::Response { id, result } => JsonV::Obj(
            seq![
                MemberV { key: spec_key_id(), value: JsonV::Num(spec_dec_of(id as nat)) },
                spec_payload_member(result),
            ],
        ),
        FrameV::Notification { method, params } => JsonV::Obj(
            seq![
                MemberV { key: spec_key_method(), value: JsonV::Str(method) },
                MemberV { key: spec_key_params(), value: params },
            ],
        ),
    }
}

/// The wire bytes of a frame: its JSON object and the terminating newline.
pub open spec fn spec_enc_frame(fr: FrameV) -> Seq<u8> {
    spec_enc_json(spec_json_of_frame(fr)) + seq![0x0a]
}

/// The frame a JSON value stands for, by the shape rules: `method` with
/// `id` is a request, `method` alone a notification, `id` alone a response
/// with exactly one of `result` and `error`.
pub open spec fn spec_frame_of_json(j: JsonV) -> Result<FrameV, DecodeError> {
    match j {
        JsonV::Obj(ms) => match spec_get(ms, spec_key_method()) {
            Some(JsonV::Str(method)) => match spec_get(ms, spec_key_params()) {
                Some(params) => match spec_get(ms, spec_key_id()) {
                    Some(JsonV::Num(lex)) => match spec_id_of(lex) {
                        Some(id) => Ok(FrameV::Request { method, params, id }),
                        None => Err(DecodeError::Malformed),
                    },
                    Some(_) => Err(DecodeError::Malformed),
                    None => Ok(FrameV::Notification { method, params }),
                },
                None => Err(DecodeError::Malformed),
            },
            Some(_) => Err(DecodeError::Malformed),
            None => match spec_get(ms, spec_key_id()) {
                Some(JsonV::Num(lex)) => match spec_id_of(lex) {
                    Some(id) => match (
                        spec_get(ms, spec_key_result()),
                        spec_get(ms, spec_key_error()),
                    ) {
                        (Some(v), None) => Ok(FrameV::Response { id, result: Ok(v) }),
                        (None, Some(e)) => Ok(FrameV::Response { id, result: Err(e) }),
                        _ => Err(DecodeError::Malformed),
                    },
                    None => Err(DecodeError::Malformed),
                },
                _ => Err(DecodeError::Malformed),
            },
        },
        _ => Err(DecodeError::Malformed),
    }
}

/// Whether `b` is blank: space, tab, carriage return or newline.
pub open spec fn spec_is_blank(b: u8) -> bool {
    b == 0x20 || b == 0x09 || b == 0x0d || b == 0x0a
}

/// `s` without its trailing blanks.
pub open spec fn spec_trim_end(s: Seq<u8>) -> Seq<u8>
    decreases s.len(),
{
    if s.len() > 0 && spec_is_blank(s[s.len() - 1]) {
        spec_trim_end(s.take(s.len() - 1))
    } else {
        s
    }
}

/// `s` without its leading blanks.
pub open spec fn spec_trim_start(s: Seq<u8>) -> Seq<u8>
    decreases s.len(),
{
    if s.len() > 0 && spec_is_blank(s[0]) {
        spec_trim_start(s.drop_first())
    } else {
        s
    }
}

/// `s` without leading and trailing blanks.
pub open spec fn spec_trim(s: Seq<u8>) -> Seq<u8> {
    spec_trim_start(spec_trim_end(s))
}

/// What one line of wire text decodes to. The line's surrounding blanks,
/// including the newline the transport hands over, are immaterial.
pub open spec fn spec_decode(s: Seq<u8>) -> Result<FrameV, DecodeError> {
    match spec_parse_text(spec_trim(s)) {
        Some(j) => spec_frame_of_json(j),
        None => Err(DecodeError::Malformed),
    }
}

/// Well-formedness of a frame: its free-form payloads are well formed.
/// Every decoded frame is; encoding such a frame decodes back to it.
pub open spec fn wf_frame(fr: FrameV) -> bool {
    match fr {
        FrameV::Request { method, params, id } => wf_jsonv(params),
        FrameV::Response { id, result } => match result {
            Ok(v) => wf_jsonv(v),
            Err(e) => wf_jsonv(e),
        },
        FrameV::Notification { method, params } => wf_jsonv(params),
    }
}

/// Mapping an optional executable value to its model.
pub open spec fn opt_jv(o: Option<Json>) -> Option<JsonV> {
    match o {
        Some(j) => Some(jv(j)),
        None => None,
    }
}

/// The earlier of two candidate lookups: a hit in the part still to be
/// walked wins over one already recorded.
pub open spec fn first_or(a: Option<JsonV>, b: Option<JsonV>) -> Option<JsonV> {
    if a is Some {
        a
    } else {
        b
    }
}

/// First-match lookup, extended by one member at the back.
pub proof fn lemma_get_snoc(s: Seq<MemberV>, x: MemberV, key: Seq<u8>)
    ensures
        spec_get(s.push(x), key) == (if spec_get(s, key) is Some {
            spec_get(s, key)
        } else if x.key == key {
            Some(x.value)
        } else {
            None
        }),
    decreases s.len(),
{
    if s.len() == 0 {
        assert(s.push(x)[0] == x);
        assert(s.push(x).drop_first() =~= Seq::<MemberV>::empty());
    } else {
        assert(s.push(x)[0] == s[0]);
        assert(s.push(x).drop_first() =~= s.drop_first().push(x));
        lemma_get_snoc(s.drop_first(), x, key);
    }
}

/// Whether two byte texts are equal.
pub fn bytes_eq(a: &Vec<u8>, b: &[u8]) -> (r: bool)
    ensures
        r == (a@ == b@),
{
    if a.len() != b.len() {
        return false;
    }
    let n = a.len();
    let mut i: usize = 0;
    while i < n
        invariant
            i <= n,
            n == a@.len() == b@.len(),
            forall|j: int| 0 <= j < i ==> a@[j] == b@[j],
        decreases n - i,
    {
        if a[i] != b[i] {
            return false;
        }
        i = i + 1;
    }
    proof {
        assert(a@ =~= b@);
    }
    true
}

/// The `method` key as bytes.
fn key_method() -> (r: Vec<u8>)
    ensures
        r@ == spec_key_method(),
{
    let mut v: Vec<u8> = Vec::new();
    v.push(0x6d);
    v.push(0x65);
    v.push(0x74);
    v.push(0x68);
    v.push(0x6f);
    v.push(0x64);
    proof {
        assert(v@ =~= spec_key_method());
    }
    v
}

/// The `params` key as bytes.
fn key_params() -> (r: Vec<u8>)
    ensures
        r@ == spec_key_params(),
{
    let mut v: Vec<u8> = Vec::new();
    v.push(0x70);
    v.push(0x61);
    v.push(0x72);
    v.push(0x61);
    v.push(0x6d);
    v.push(0x73);
    proof {
        assert(v@ =~= spec_key_params());
    }
    v
}

/// The `id` key as bytes.
fn key_id() -> (r: Vec<u8>)
    ensures
        r@ == spec_key_id(),
{
    let mut v: Vec<u8> = Vec::new();
    v.push(0x69);
    v.push(0x64);
    proof {
        assert(v@ =~= spec_key_id());
    }
    v
}

/// The `result` key as bytes.
fn key_result() -> (r: Vec<u8>)
    ensures
        r@ == spec_key_result(),
{
    let mut v: Vec<u8> = Vec::new();
    v.push(0x72);
    v.push(0x65);
    v.push(0x73);
    v.push(0x75);
    v.push(0x6c);
    v.push(0x74);
    proof {
        assert(v@ =~= spec_key_result());
    }
    v
}

/// The `error` key as bytes.
fn key_error() -> (r: Vec<u8>)
    ensures
        r@ == spec_key_error(),
{
    let mut v: Vec<u8> = Vec::new();
    v.push(0x65);
    v.push(0x72);
    v.push(0x72);
    v.push(0x6f);
    v.push(0x72);
    proof {
        assert(v@ =~= spec_key_error());
    }
    v
}

/// Classifies a parsed JSON value as a frame, by the shape rules.
pub fn frame_of_json(j: Json) -> (r: Result<Frame, DecodeError>)
    ensures
        match spec_frame_of_json(jv(j)) {
            Ok(frv) => r matches Ok(f) && fv(f) == frv,
            Err(e) => r matches Err(e2) && e2 == e,
        },
{
    let mut ms: Vec<Member> = match j {
        Json::Obj(ms) => ms,
        _ => {
            return Err(DecodeError::Malformed);
        },
    };
    let km = key_method();
    let kp = key_params();
    let ki = key_id();
    let kr = key_result();
    let ke = key_error();
    let ghost orig: Seq<Member> = ms@;
    let ghost origv: Seq<MemberV> = crate::json::jv_members(orig);
    let mut slot_method: Option<Json> = None;
    let mut slot_params: Option<Json> = None;
    let mut slot_id: Option<Json> = None;
    let mut slot_result: Option<Json> = None;
    let mut slot_error: Option<Json> = None;
    proof {
        assert(orig.take(orig.len() as int) =~= orig);
    }
    while ms.len() > 0
        invariant
            ms@.len() <= orig.len(),
            ms@ == orig.take(ms@.len() as int),
            origv == crate::json::jv_members(orig),
            km@ == spec_key_method(),
            kp@ == spec_key_params(),
            ki@ == spec_key_id(),
            kr@ == spec_key_result(),
            ke@ == spec_key_error(),
            spec_get(origv, spec_key_method()) == first_or(
                spec_get(crate::json::jv_members(ms@), spec_key_method()),
                opt_jv(slot_method),
            ),
            spec_get(origv, spec_key_params()) == first_or(
                spec_get(crate::json::jv_members(ms@), spec_key_params()),
                opt_jv(slot_params),
            ),
            spec_get(origv, spec_key_id()) == first_or(
                spec_get(crate::json::jv_members(ms@), spec_key_id()),
                opt_jv(slot_id),
            ),
            spec_get(origv, spec_key_result()) == first_or(
                spec_get(crate::json::jv_members(ms@), spec_key_result()),
                opt_jv(slot_result),
            ),
            spec_get(origv, spec_key_error()) == first_or(
                spec_get(crate::json::jv_members(ms@), spec_key_error()),
                opt_jv(slot_error),
            ),
        decreases ms@.len(),
    {
        let ghost prev: Seq<Member> = ms@;
        let mem = ms.pop().unwrap();
        proof {
            assert(prev =~= ms@.push(mem));
            crate::json::lemma_jv_members_props(prev);
            crate::json::lemma_jv_members_props(ms@);
            assert(crate::json::jv_members(prev) =~= crate::json::jv_members(ms@).push(mem@));
            lemma_get_snoc(crate::json::jv_members(ms@), mem@, spec_key_method());
            lemma_get_snoc(crate::json::jv_members(ms@), mem@, spec_key_params());
            lemma_get_snoc(crate::json::jv_members(ms@), mem@, spec_key_id());
            lemma_get_snoc(crate::json::jv_members(ms@), mem@, spec_key_result());
            lemma_get_snoc(crate::json::jv_members(ms@), mem@, spec_key_error());
            assert(ms@ =~= orig.take(ms@.len() as int));
        }
        if bytes_eq(&mem.key, km.as_slice()) {
            slot_method = Some(mem.value);
        } else if bytes_eq(&mem.key, kp.as_slice()) {
            slot_params = Some(mem.value);
        } else if bytes_eq(&mem.key, ki.as_slice()) {
            slot_id = Some(mem.value);
        } else if bytes_eq(&mem.key, kr.as_slice()) {
            slot_result = Some(mem.value);
        } else if bytes_eq(&mem.key, ke.as_slice()) {
            slot_error = Some(mem.value);
        }
    }
    proof {
        assert(ms@ =~= Seq::<Member>::empty());
        assert(crate::json::jv_members(ms@) =~= Seq::<MemberV>::empty());
    }
    match slot_method {
        Some(Json::Str(method)) => match slot_params {
            Some(params) => match slot_id {
                Some(Json::Num(lex)) => match crate::json::parse_u64(lex.as_slice()) {
                    Some(id) => Ok(Frame::Request { method, params, id }),
                    None => Err(DecodeError::Malformed),
                },
                Some(_) => Err(DecodeError::Malformed),
                None => Ok(Frame::Notification { method, params }),
            },
            None => Err(DecodeError::Malformed),
        },
        Some(_) => Err(DecodeError::Malformed),
        None => match slot_id {
            Some(Json::Num(lex)) => match crate::json::parse_u64(lex.as_slice()) {
                Some(id) => match (slot_result, slot_error) {
                    (Some(v), None) => Ok(Frame::Response { id, result: Ok(v) }),
                    (None, Some(e)) => Ok(Frame::Response { id, result: Err(e) }),
                    _ => Err(DecodeError::Malformed),
                },
                None => Err(DecodeError::Malformed),
            },
            _ => Err(DecodeError::Malformed),
        },
    }
}

/// Decodes one line of wire text, surrounding blanks and the newline
/// included, as a frame. Exactly the lines whose trimmed text is one JSON
/// object of a frame shape succeed; everything else is `Malformed`.
pub fn decode_frame(line: &[u8]) -> (r: Result<Frame, DecodeError>)
    ensures
        match spec_decode(line@) {
            Ok(frv) => r matches Ok(f) && fv(f) == frv,
            Err(e) => r matches Err(e2) && e2 == e,
        },
{
    let n = line.len();
    let mut hi: usize = n;
    proof {
        assert(line@.take(n as int) =~= line@);
    }
    while hi > 0 && (line[hi - 1] == 0x20 || line[hi - 1] == 0x09 || line[hi - 1] == 0x0d
        || line[hi - 1] == 0x0a)
        invariant
            hi <= n,
            n == line@.len(),
            spec_trim_end(line@) == spec_trim_end(line@.take(hi as int)),
        decreases hi,
    {
        proof {
            assert(line@.take(hi as int).take(hi as int - 1) =~= line@.take(hi as int - 1));
        }
        hi = hi - 1;
    }
    proof {
        assert(spec_trim_end(line@) == line@.take(hi as int));
    }
    let mut lo: usize = 0;
    while lo < hi && (line[lo] == 0x20 || line[lo] == 0x09 || line[lo] == 0x0d || line[lo]
        == 0x0a)
        invariant
            lo <= hi <= n,
            n == line@.len(),
            spec_trim_end(line@) == line@.take(hi as int),
            spec_trim_start(line@.take(hi as int)) == spec_trim_start(
                line@.subrange(lo as int, hi as int),
            ),
        decreases hi - lo,
    {
        proof {
            assert(line@.subrange(lo as int, hi as int).drop_first() =~= line@.subrange(
                lo as int + 1,
                hi as int,
            ));
        }
        lo = lo + 1;
    }
    proof {
        if lo < hi {
            assert(line@.subrange(lo as int, hi as int)[0] == line@[lo as int]);
        }
        assert(spec_trim(line@) == line@.subrange(lo as int, hi as int));
    }
    let mut t: Vec<u8> = Vec::new();
    let mut k: usize = lo;
    while k < hi
        invariant
            lo <= k <= hi <= n,
            n == line@.len(),
            t@ == line@.subrange(lo as int, k as int),
        decreases hi - k,
    {
        t.push(line[k]);
        proof {
            assert(line@.subrange(lo as int, k as int).push(line@[k as int]) =~= line@.subrange(
                lo as int,
                k as int + 1,
            ));
        }
        k = k + 1;
    }
    match crate::json::parse_text(t.as_slice()) {
        Some(j) => frame_of_json(j),
        None => Err(DecodeError::Malformed),
    }
}

/// Builds the JSON object a frame serializes to.
fn json_of_frame(f: Frame) -> (r: Json)
    ensures
        jv(r) == spec_json_of_frame(fv(f)),
{
    match f {
        Frame::Request { method, params, id } => {
            let ghost methodg = method@;
            let ghost paramsg = jv(params);
            let mut idlex: Vec<u8> = Vec::new();
            crate::json::push_dec(id, &mut idlex);
            proof {
                assert(idlex@ =~= spec_dec_of(id as nat));
            }
            let mut ms: Vec<Member> = Vec::new();
            ms.push(Member { key: key_method(), value: Json::Str(method) });
            ms.push(Member { key: key_params(), value: params });
            ms.push(Member { key: key_id(), value: Json::Num(idlex) });
            let ghost msg = ms@;
            let r = Json::Obj(ms);
            proof {
                crate::json::lemma_jv_members_props(msg);
                let target = seq![
                    MemberV { key: spec_key_method(), value: JsonV::Str(methodg) },
                    MemberV { key: spec_key_params(), value: paramsg },
                    MemberV {
                        key: spec_key_id(),
                        value: JsonV::Num(spec_dec_of(id as nat)),
                    },
                ];
                assert(crate::json::jv_members(msg) =~= target);
            }
            r
        },
        Frame::Response { id, result } => {
            let mut idlex: Vec<u8> = Vec::new();
            crate::json::push_dec(id, &mut idlex);
            proof {
                assert(idlex@ =~= spec_dec_of(id as nat));
            }
            let mut ms: Vec<Member> = Vec::new();
            ms.push(Member { key: key_id(), value: Json::Num(idlex) });
            let ghost payloadv: MemberV;
            match result {
                Ok(v) => {
                    let ghost vg = jv(v);
                    proof {
                        payloadv = MemberV { key: spec_key_result(), value: vg };
                    }
                    ms.push(Member { key: key_result(), value: v });
                },
                Err(e) => {
                    let ghost eg = jv(e);
                    proof {
                        payloadv = MemberV { key: spec_key_error(), value: eg };
                    }
                    ms.push(Member { key: key_error(), value: e });
                },
            }
            let ghost msg = ms@;
            let r = Json::Obj(ms);
            proof {
                crate::json::lemma_jv_members_props(msg);
                assert(payloadv == spec_payload_member(fv(f)->Response_result));
                assert(crate::json::jv_members(msg) =~= seq![
                    MemberV {
                        key: spec_key_id(),
                        value: JsonV::Num(spec_dec_of(id as nat)),
                    },
                    payloadv,
                ]);
            }
            r
        },
        Frame::Notification { method, params } => {
            let ghost methodg = method@;
            let ghost paramsg = jv(params);
            let mut ms: Vec<Member> = Vec::new();
            ms.push(Member { key: key_method(), value: Json::Str(method) });
            ms.push(Member { key: key_params(), value: params });
            let ghost msg = ms@;
            let r = Json::Obj(ms);
            proof {
                crate::json::lemma_jv_members_props(msg);
                assert(crate::json::jv_members(msg) =~= seq![
                    MemberV { key: spec_key_method(), value: JsonV::Str(methodg) },
                    MemberV { key: spec_key_params(), value: paramsg },
                ]);
            }
            r
        },
    }
}

/// Serializes a frame as one line of wire text, newline included, and
/// appends it to `out`.
pub fn encode_frame(f: Frame, out: &mut Vec<u8>)
    ensures
        final(out)@ == old(out)@ + spec_enc_frame(fv(f)),
{
    let ghost frv = fv(f);
    let obj = json_of_frame(f);
    crate::json::push_json(&obj, out);
    out.push(0x0a);
    proof {
        assert(final(out)@ =~= old(out)@ + spec_enc_frame(frv));
    }
}

/// The payload a first-match lookup finds in a well-formed member list is
/// well formed.
proof fn lemma_get_wf(ms: Seq<MemberV>, key: Seq<u8>)
    requires
        crate::json::wf_memberv_seq(ms),
    ensures
        spec_get(ms, key) matches Some(v) ==> wf_jsonv(v),
    decreases ms.len(),
{
    if ms.len() > 0 && !(ms[0].key == key) {
        lemma_get_wf(ms.drop_first(), key);
    }
}

/// Every frame a line decodes to is well formed.
pub proof fn lemma_decode_wf(s: Seq<u8>)
    ensures
        spec_decode(s) matches Ok(fr) ==> wf_frame(fr),
{
    crate::json::lemma_parse_text_wf(spec_trim(s));
    match spec_parse_text(spec_trim(s)) {
        Some(j) => match j {
            JsonV::Obj(ms) => {
                lemma_get_wf(ms, spec_key_method());
                lemma_get_wf(ms, spec_key_params());
                lemma_get_wf(ms, spec_key_id());
                lemma_get_wf(ms, spec_key_result());
                lemma_get_wf(ms, spec_key_error());
            },
            _ => {},
        },
        None => {},
    }
}

/// Encoding a well-formed frame and decoding the line back yields exactly
/// the frame again: the codec loses nothing.
pub proof fn lemma_encode_decode(fr: FrameV)
    requires
        wf_frame(fr),
    ensures
        spec_decode(spec_enc_frame(fr)) == Ok::<FrameV, DecodeError>(fr),
{
    let obj = spec_json_of_frame(fr);
    let enc = spec_enc_json(obj);
    let line = spec_enc_frame(fr);
    // the trimmed line is the object text again
    assert(enc.len() >= 2 && enc[0] == 0x7b && enc[enc.len() - 1] == 0x7d) by {
        match obj {
            JsonV::Obj(ms) => {
                assert(enc == seq![0x7b] + crate::json::spec_enc_members(ms) + seq![0x7d]);
            },
            _ => {
                assert(false);
            },
        }
    }
    assert(line[line.len() - 1] == 0x0a);
    assert(line.take(line.len() - 1) =~= enc);
    assert(spec_trim_end(line) == spec_trim_end(enc));
    assert(!spec_is_blank(enc[enc.len() - 1]));
    assert(spec_trim_end(enc) == enc);
    assert(!spec_is_blank(enc[0]));
    assert(spec_trim_start(enc) == enc);
    assert(spec_trim(line) == enc);
    assert(wf_jsonv(obj)) by {
        lemma_wf_json_of_frame(fr);
    }
    crate::json::lemma_parse_text_enc(obj);
    // and the object classifies back to the frame
    lemma_classify_json_of_frame(fr);
}

/// The serialized object of a well-formed frame is a well-formed value.
proof fn lemma_wf_json_of_frame(fr: FrameV)
    requires
        wf_frame(fr),
    ensures
        wf_jsonv(spec_json_of_frame(fr)),
{
    let obj = spec_json_of_frame(fr);
    match fr {
        FrameV::Request { method, params, id } => {
            crate::json::lemma_dec_of_wf(id as nat);
            let ms = seq![
                MemberV { key: spec_key_method(), value: JsonV::Str(method) },
                MemberV { key: spec_key_params(), value: params },
                MemberV { key: spec_key_id(), value: JsonV::Num(spec_dec_of(id as nat)) },
            ];
            assert(obj == JsonV::Obj(ms));
            assert(wf_jsonv(ms[0].value));
            assert(wf_jsonv(ms[1].value));
            assert(crate::json::spec_wf_num(spec_dec_of(id as nat)));
            assert(wf_jsonv(ms[2].value));
            assert(ms.drop_first()[0] == ms[1]);
            assert(ms.drop_first().drop_first()[0] == ms[2]);
            assert(ms.drop_first().drop_first().drop_first() =~= Seq::<MemberV>::empty());
            assert(crate::json::wf_memberv_seq(Seq::<MemberV>::empty()));
            assert(crate::json::wf_memberv_seq(ms.drop_first().drop_first()));
            assert(crate::json::wf_memberv_seq(ms.drop_first()));
            assert(crate::json::wf_memberv_seq(ms));
        },
        FrameV::Response { id, result } => {
            crate::json::lemma_dec_of_wf(id as nat);
            match result {
                Ok(v) => {
                    let payload = MemberV { key: spec_key_result(), value: v };
                    let ms = seq![
                        MemberV {
                            key: spec_key_id(),
                            value: JsonV::Num(spec_dec_of(id as nat)),
                        },
                        payload,
                    ];
                    assert(spec_payload_member(result) == payload);
                    assert(obj == JsonV::Obj(ms));
                    assert(wf_jsonv(ms[0].value));
                    assert(wf_jsonv(ms[1].value));
                    assert(ms.drop_first()[0] == ms[1]);
                    assert(ms.drop_first().drop_first() =~= Seq::<MemberV>::empty());
                    assert(crate::json::wf_memberv_seq(Seq::<MemberV>::empty()));
                    assert(crate::json::wf_memberv_seq(ms.drop_first()));
                    assert(crate::json::wf_memberv_seq(ms));
                },
                Err(e) => {
                    let payload = MemberV { key: spec_key_error(), value: e };
                    let ms = seq![
                        MemberV {
                            key: spec_key_id(),
                            value: JsonV::Num(spec_dec_of(id as nat)),
                        },
                        payload,
                    ];
                    assert(spec_payload_member(result) == payload);
                    assert(obj == JsonV::Obj(ms));
                    assert(wf_jsonv(ms[0].value));
                    assert(wf_jsonv(ms[1].value));
                    assert(ms.drop_first()[0] == ms[1]);
                    assert(ms.drop_first().drop_first() =~= Seq::<MemberV>::empty());
                    assert(crate::json::wf_memberv_seq(Seq::<MemberV>::empty()));
                    assert(crate::json::wf_memberv_seq(ms.drop_first()));
                    assert(crate::json::wf_memberv_seq(ms));
                },
            }
        },
        FrameV::Notification { method, params } => {
            let ms = seq![
                MemberV { key: spec_key_method(), value: JsonV::Str(method) },
                MemberV { key: spec_key_params(), value: params },
            ];
            assert(obj == JsonV::Obj(ms));
            assert(wf_jsonv(ms[0].value));
            assert(wf_jsonv(ms[1].value));
            assert(ms.drop_first()[0] == ms[1]);
            assert(ms.drop_first().drop_first() =~= Seq::<MemberV>::empty());
            assert(crate::json::wf_memberv_seq(Seq::<MemberV>::empty()));
            assert(crate::json::wf_memberv_seq(ms.drop_first()));
            assert(crate::json::wf_memberv_seq(ms));
        },
    }
}

/// The serialized object of a frame classifies back to the frame.
proof fn lemma_classify_json_of_frame(fr: FrameV)
    ensures
        spec_frame_of_json(spec_json_of_frame(fr)) == Ok::<FrameV, DecodeError>(fr),
{
    let obj = spec_json_of_frame(fr);
    assert(spec_key_method().len() == 6 && spec_key_params().len() == 6 && spec_key_id().len()
        == 2 && spec_key_result().len() == 6 && spec_key_error().len() == 5);
    assert(spec_key_method() != spec_key_id());
    assert(spec_key_params() != spec_key_id());
    assert(spec_key_result() != spec_key_id());
    assert(spec_key_error() != spec_key_id());
    assert(spec_key_error() != spec_key_result());
    assert(spec_key_error() != spec_key_method());
    assert(spec_key_method()[0] != spec_key_params()[0]);
    assert(spec_key_method() != spec_key_params());
    assert(spec_key_result()[0] != spec_key_method()[0]);
    assert(spec_key_result() != spec_key_method());
    assert(spec_key_result() != spec_key_params());
    match fr {
        FrameV::Request { method, params, id } => {
            let m0 = MemberV { key: spec_key_method(), value: JsonV::Str(method) };
            let m1 = MemberV { key: spec_key_params(), value: params };
            let m2 = MemberV { key: spec_key_id(), value: JsonV::Num(spec_dec_of(id as nat)) };
            let ms = seq![m0, m1, m2];
            assert(obj == JsonV::Obj(ms));
            assert(ms.drop_first()[0] == m1);
            assert(ms.drop_first().drop_first()[0] == m2);
            assert(spec_get(ms, spec_key_method()) == Some(JsonV::Str(method)));
            assert(spec_get(ms.drop_first(), spec_key_params()) == Some(params));
            assert(spec_get(ms, spec_key_params()) == Some(params));
            assert(spec_get(ms.drop_first().drop_first(), spec_key_id()) == Some(m2.value));
            assert(spec_get(ms.drop_first(), spec_key_id()) == Some(m2.value));
            assert(spec_get(ms, spec_key_id()) == Some(m2.value));
            lemma_id_of_dec(id);
        },
        FrameV::Response { id, result } => {
            let m0 = MemberV { key: spec_key_id(), value: JsonV::Num(spec_dec_of(id as nat)) };
            lemma_id_of_dec(id);
            match result {
                Ok(v) => {
                    let m1 = MemberV { key: spec_key_result(), value: v };
                    let ms = seq![m0, m1];
                    assert(spec_payload_member(result) == m1);
                    assert(obj == JsonV::Obj(ms));
                    assert(ms.drop_first()[0] == m1);
                    assert(ms.drop_first().drop_first() =~= Seq::<MemberV>::empty());
                    assert(spec_get(Seq::<MemberV>::empty(), spec_key_method()) is None);
                    assert(spec_get(ms.drop_first(), spec_key_method()) is None);
                    assert(spec_get(ms, spec_key_method()) is None);
                    assert(spec_get(ms, spec_key_id()) == Some(m0.value));
                    assert(spec_get(ms.drop_first(), spec_key_result()) == Some(v));
                    assert(spec_get(ms, spec_key_result()) == Some(v));
                    assert(spec_get(Seq::<MemberV>::empty(), spec_key_error()) is None);
                    assert(spec_get(ms.drop_first(), spec_key_error()) is None);
                    assert(spec_get(ms, spec_key_error()) is None);
                },
                Err(e) => {
                    let m1 = MemberV { key: spec_key_error(), value: e };
                    let ms = seq![m0, m1];
                    assert(spec_payload_member(result) == m1);
                    assert(obj == JsonV::Obj(ms));
                    assert(ms.drop_first()[0] == m1);
                    assert(ms.drop_first().drop_first() =~= Seq::<MemberV>::empty());
                    assert(spec_get(Seq::<MemberV>::empty(), spec_key_method()) is None);
                    assert(spec_get(ms.drop_first(), spec_key_method()) is None);
                    assert(spec_get(ms, spec_key_method()) is None);
                    assert(spec_get(ms, spec_key_id()) == Some(m0.value));
                    assert(spec_get(ms.drop_first(), spec_key_error()) == Some(e));
                    assert(spec_get(ms, spec_key_error()) == Some(e));
                    assert(spec_get(Seq::<MemberV>::empty(), spec_key_result()) is None);
                    assert(spec_get(ms.drop_first(), spec_key_result()) is None);
                    assert(spec_get(ms, spec_key_result()) is None);
                },
            }
        },
        FrameV::Notification { method, params } => {
            let m0 = MemberV { key: spec_key_method(), value: JsonV::Str(method) };
            let m1 = MemberV { key: spec_key_params(), value: params };
            let ms = seq![m0, m1];
            assert(obj == JsonV::Obj(ms));
            assert(ms.drop_first()[0] == m1);
            assert(ms.drop_first().drop_first() =~= Seq::<MemberV>::empty());
            assert(spec_get(ms, spec_key_method()) == Some(JsonV::Str(method)));
            assert(spec_get(ms.drop_first(), spec_key_params()) == Some(params));
            assert(spec_get(ms, spec_key_params()) == Some(params));
            assert(spec_get(Seq::<MemberV>::empty(), spec_key_id()) is None);
            assert(spec_get(ms.drop_first(), spec_key_id()) is None);
            assert(spec_get(ms, spec_key_id()) is None);
        },
    }
}

/// A printed identifier reads back as itself.
proof fn lemma_id_of_dec(id: u64)
    ensures
        spec_id_of(spec_dec_of(id as nat)) == Some(id),
{
    crate::json::lemma_dec_of_digits(id as nat);
    crate::json::lemma_dec_of_wf(id as nat);
    crate::json::lemma_dec_of_val(id as nat);
    let s = spec_dec_of(id as nat);
    assert(spec_digits_len(s) == s.len()) by {
        crate::json::lemma_digits_prefix(s);
    }
}

/// Re-encoding a decoded frame is the identity on its semantic content:
/// the line the re-encode produces decodes to the very same frame.
pub proof fn lemma_reencode_identity(s: Seq<u8>)
    ensures
        spec_decode(s) matches Ok(fr) ==> spec_decode(spec_enc_frame(fr)) == Ok::<
            FrameV,
            DecodeError,
        >(fr),
{
    lemma_decode_wf(s);
    match spec_decode(s) {
        Ok(fr) => {
            lemma_encode_decode(fr);
        },
        Err(_) => {},
    }
}

/// Lookup passes over a clean prefix.
pub proof fn lemma_get_skip(ms: Seq<MemberV>, key: Seq<u8>, i: int)
    requires
        0 <= i <= ms.len(),
        forall|j: int| 0 <= j < i ==> ms[j].key != key,
    ensures
        spec_get(ms, key) == spec_get(ms.skip(i), key),
    decreases i,
{
    if i > 0 {
        assert(forall|j: int| 0 <= j < ms.drop_first().len() ==> ms.drop_first()[j] == ms[j + 1]);
        lemma_get_skip(ms.drop_first(), key, i - 1);
        assert(ms.drop_first().skip(i - 1) =~= ms.skip(i));
    } else {
        assert(ms.skip(0) =~= ms);
    }
}

/// A borrowed view of the value under the first member with the given
/// key, if any.
pub fn obj_get_ref<'a>(ms: &'a Vec<Member>, key: &[u8]) -> (r: Option<&'a Json>)
    ensures
        match r {
            Some(v) => spec_get(crate::json::jv_members(ms@), key@) == Some(jv(*v)),
            None => spec_get(crate::json::jv_members(ms@), key@) is None,
        },
{
    proof {
        crate::json::lemma_jv_members_props(ms@);
    }
    let n = ms.len();
    let mut i: usize = 0;
    while i < n
        invariant
            i <= n,
            n == ms@.len(),
            forall|j: int|
                0 <= j < i ==> crate::json::jv_members(ms@)[j].key != key@,
            crate::json::jv_members(ms@).len() == n,
            forall|j: int|
                0 <= j < n ==> crate::json::jv_members(ms@)[j] == (MemberV {
                    key: ms@[j].key@,
                    value: jv(ms@[j].value),
                }),
        decreases n - i,
    {
        if bytes_eq(&ms[i].key, key) {
            proof {
                lemma_get_skip(crate::json::jv_members(ms@), key@, i as int);
                assert(crate::json::jv_members(ms@).skip(i as int)[0] == crate::json::jv_members(
                    ms@,
                )[i as int]);
            }
            return Some(&ms[i].value);
        }
        i = i + 1;
    }
    proof {
        lemma_get_skip(crate::json::jv_members(ms@), key@, n as int);
        assert(crate::json::jv_members(ms@).skip(n as int).len() == 0);
    }
    None
}

} // verus!
