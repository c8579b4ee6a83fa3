//! The JSON value model used on the wire, with a verified serializer.
//!
//! Frames travel as one line of JSON text each. The model keeps number
//! literals as their raw byte text (`Json::Num`), which preserves every
//! numeric payload exactly — including ones, such as fractional widths, whose
//! semantics the protocol layer never needs — and makes re-encoding a decoded
//! value the identity on the wire bytes. String contents are kept as raw
//! (unescaped) bytes, so any UTF-8 payload passes through unchanged.

use vstd::prelude::*;

verus! {

/// One member of a JSON object: a key (raw content bytes, unescaped) and a value.
#[derive(Debug, PartialEq, Eq)]
pub struct Member {
    pub key: Vec<u8>,
    pub value: Json,
}

/// A JSON value.
///
/// `Num` holds the number's byte text exactly as it appears on the wire
/// (checked against the number grammar by the parser); `Str` holds the
/// decoded content bytes with all escapes resolved.
#[derive(Debug, PartialEq, Eq)]
pub enum Json {
    Null,
    Bool(bool),
    Num(Vec<u8>),
    Str(Vec<u8>),
    Arr(Vec<Json>),
    Obj(Vec<Member>),
}

/// The mathematical model of a JSON object member.
pub ghost struct MemberV {
    pub key: Seq<u8>,
    pub value: JsonV,
}

/// The mathematical model of a JSON value, used by every contract.
pub ghost enum JsonV {
    Null,
    Bool(bool),
    Num(Seq<u8>),
    Str(Seq<u8>),
    Arr(Seq<JsonV>),
    Obj(Seq<MemberV>),
}

/// The model of an executable JSON value.
pub open spec fn jv(j: Json) -> JsonV
    decreases j, 1int,
{
    match j {
        Json::Null => JsonV::Null,
        Json::Bool(b) => JsonV::Bool(b),
        Json::Num(lex) => JsonV::Num(lex@),
        Json::Str(content) => JsonV::Str(content@),
        Json::Arr(elems) => JsonV::Arr(jv_seq(elems@)),
        Json::Obj(members) => JsonV::Obj(jv_members(members@)),
    }
}

/// The models of a sequence of executable JSON values.
pub open spec fn jv_seq(s: Seq<Json>) -> Seq<JsonV>
    decreases s, 0int,
{
    if s.len() == 0 {
        Seq::empty()
    } else {
        seq![jv(s[0])] + jv_seq(s.drop_first())
    }
}

/// The models of a sequence of executable object members.
pub open spec fn jv_members(s: Seq<Member>) -> Seq<MemberV>
    decreases s, 0int,
{
    if s.len() == 0 {
        Seq::empty()
    } else {
        seq![MemberV { key: s[0].key@, value: jv(s[0].value) }] + jv_members(s.drop_first())
    }
}

impl View for Json {
    type V = JsonV;

    open spec fn view(&self) -> JsonV {
        jv(*self)
    }
}

impl View for Member {
    type V = MemberV;

    open spec fn view(&self) -> MemberV {
        MemberV { key: self.key@, value: jv(self.value) }
    }
}

/// Whether `b` is a decimal digit.
pub open spec fn spec_is_digit(b: u8) -> bool {
    0x30 <= b <= 0x39
}

/// The hex digit (lower case) for a value below 16.
pub open spec fn spec_hex_digit(n: u8) -> u8 {
    if n < 10 {
        (0x30 + n) as u8
    } else {
        (0x61 + (n - 10)) as u8
    }
}

/// How one content byte appears inside a JSON string literal: the two-byte
/// short escapes for the bytes JSON names, `\u00XX` for the other control
/// bytes, and the byte itself otherwise.
pub open spec fn spec_esc_byte(b: u8) -> Seq<u8> {
    if b == 0x22 {  // '"'
        seq![0x5c, 0x22]
    } else if b == 0x5c {  // '\'
        seq![0x5c, 0x5c]
    } else if b == 0x08 {
        seq![0x5c, 0x62]
    } else if b == 0x0c {
        seq![0x5c, 0x66]
    } else if b == 0x0a {
        seq![0x5c, 0x6e]
    } else if b == 0x0d {
        seq![0x5c, 0x72]
    } else if b == 0x09 {
        seq![0x5c, 0x74]
    } else if b < 0x20 {
        seq![0x5c, 0x75, 0x30, 0x30, spec_hex_digit(b / 16), spec_hex_digit(b % 16)]
    } else {
        seq![b]
    }
}

/// The escaped form of a whole string content.
pub open spec fn spec_esc(s: Seq<u8>) -> Seq<u8>
    decreases s.len(),
{
    if s.len() == 0 {
        Seq::empty()
    } else {
        spec_esc_byte(s[0]) + spec_esc(s.drop_first())
    }
}

/// A JSON string literal: quote, escaped content, quote.
pub open spec fn spec_enc_str(content: Seq<u8>) -> Seq<u8> {
    seq![0x22] + spec_esc(content) + seq![0x22]
}

/// Decimal text of `n`, most significant digit first.
pub open spec fn spec_dec_of(n: nat) -> Seq<u8>
    decreases n,
{
    if n < 10 {
        seq![(0x30 + n) as u8]
    } else {
        spec_dec_of(n / 10) + seq![(0x30 + n % 10) as u8]
    }
}

/// The byte text a JSON value serializes to. No padding is emitted.
pub open spec fn spec_enc_json(j: JsonV) -> Seq<u8>
    decreases j, 1int,
{
    match j {
        JsonV::Null => seq![0x6e, 0x75, 0x6c, 0x6c],
        JsonV::Bool(b) => if b {
            seq![0x74, 0x72, 0x75, 0x65]
        } else {
            seq![0x66, 0x61, 0x6c, 0x73, 0x65]
        },
        JsonV::Num(lex) => lex,
        JsonV::Str(content) => spec_enc_str(content),
        JsonV::Arr(elems) => seq![0x5b] + spec_enc_elems(elems) + seq![0x5d],
        JsonV::Obj(members) => seq![0x7b] + spec_enc_members(members) + seq![0x7d],
    }
}

/// The comma-separated encodings of array elements.
pub open spec fn spec_enc_elems(s: Seq<JsonV>) -> Seq<u8>
    decreases s, 0int,
{
    if s.len() == 0 {
        Seq::empty()
    } else if s.len() == 1 {
        spec_enc_json(s[0])
    } else {
        spec_enc_json(s[0]) + seq![0x2c] + spec_enc_elems(s.drop_first())
    }
}

/// The comma-separated encodings of object members (`"key":value`).
pub open spec fn spec_enc_members(s: Seq<MemberV>) -> Seq<u8>
    decreases s, 0int,
{
    if s.len() == 0 {
        Seq::empty()
    } else if s.len() == 1 {
        spec_enc_member(s[0])
    } else {
        spec_enc_member(s[0]) + seq![0x2c] + spec_enc_members(s.drop_first())
    }
}

/// One object member: string key, colon, value.
pub open spec fn spec_enc_member(m: MemberV) -> Seq<u8>
    decreases m, 2int,
{
    spec_enc_str(m.key) + seq![0x3a] + spec_enc_json(m.value)
}

/// `jv_seq` maps element by element.
pub proof fn lemma_jv_seq_props(s: Seq<Json>)
    ensures
        jv_seq(s).len() == s.len(),
        forall|i: int| 0 <= i < s.len() ==> jv_seq(s)[i] == jv(s[i]),
    decreases s.len(),
{
    if s.len() > 0 {
        lemma_jv_seq_props(s.drop_first());
        assert(forall|i: int|
            0 <= i < s.len() ==> jv_seq(s)[i] == if i == 0 {
                jv(s[0])
            } else {
                jv_seq(s.drop_first())[i - 1]
            });
    }
}

/// `jv_members` maps element by element.
pub proof fn lemma_jv_members_props(s: Seq<Member>)
    ensures
        jv_members(s).len() == s.len(),
        forall|i: int|
            0 <= i < s.len() ==> jv_members(s)[i] == (MemberV {
                key: s[i].key@,
                value: jv(s[i].value),
            }),
    decreases s.len(),
{
    if s.len() > 0 {
        lemma_jv_members_props(s.drop_first());
        assert(forall|i: int|
            0 <= i < s.len() ==> jv_members(s)[i] == if i == 0 {
                (MemberV { key: s[0].key@, value: jv(s[0].value) })
            } else {
                jv_members(s.drop_first())[i - 1]
            });
    }
}

proof fn lemma_esc_snoc(s: Seq<u8>, b: u8)
    ensures
        spec_esc(s.push(b)) == spec_esc(s) + spec_esc_byte(b),
    decreases s.len(),
{
    if s.len() == 0 {
        assert(s.push(b).len() == 1);
        assert(s.push(b)[0] == b);
        assert(s.push(b).drop_first() =~= Seq::<u8>::empty());
        assert(spec_esc(s.push(b).drop_first()) == Seq::<u8>::empty());
        assert(spec_esc(s.push(b)) == spec_esc_byte(b) + Seq::<u8>::empty());
        assert(spec_esc_byte(b) + Seq::<u8>::empty() =~= spec_esc_byte(b));
        assert(spec_esc(s) + spec_esc_byte(b) =~= spec_esc_byte(b));
    } else {
        lemma_esc_snoc(s.drop_first(), b);
        assert(s.push(b).drop_first() =~= s.drop_first().push(b));
        assert(spec_esc(s.push(b)) =~= spec_esc(s) + spec_esc_byte(b));
    }
}

proof fn lemma_enc_elems_snoc(s: Seq<JsonV>, x: JsonV)
    requires
        s.len() >= 1,
    ensures
        spec_enc_elems(s.push(x)) == spec_enc_elems(s) + seq![0x2c] + spec_enc_json(x),
    decreases s.len(),
{
    if s.len() == 1 {
        assert(s.push(x).drop_first() =~= seq![x]);
        assert(spec_enc_elems(seq![x]) == spec_enc_json(x));
        assert(spec_enc_elems(s.push(x)) =~= spec_enc_elems(s) + seq![0x2c] + spec_enc_json(x));
    } else {
        lemma_enc_elems_snoc(s.drop_first(), x);
        assert(s.push(x).drop_first() =~= s.drop_first().push(x));
        assert(spec_enc_elems(s.push(x)) =~= spec_enc_elems(s) + seq![0x2c] + spec_enc_json(x));
    }
}

proof fn lemma_enc_members_snoc(s: Seq<MemberV>, x: MemberV)
    requires
        s.len() >= 1,
    ensures
        spec_enc_members(s.push(x)) == spec_enc_members(s) + seq![0x2c] + spec_enc_member(x),
    decreases s.len(),
{
    if s.len() == 1 {
        assert(s.push(x).drop_first() =~= seq![x]);
        assert(spec_enc_members(seq![x]) == spec_enc_member(x));
        assert(spec_enc_members(s.push(x)) =~= spec_enc_members(s) + seq![0x2c] + spec_enc_member(
            x,
        ));
    } else {
        lemma_enc_members_snoc(s.drop_first(), x);
        assert(s.push(x).drop_first() =~= s.drop_first().push(x));
        assert(spec_enc_members(s.push(x)) =~= spec_enc_members(s) + seq![0x2c] + spec_enc_member(
            x,
        ));
    }
}

/// Appends the decimal text of `n` to `out`.
pub fn push_dec(n: u64, out: &mut Vec<u8>)
    ensures
        final(out)@ == old(out)@ + spec_dec_of(n as nat),
    decreases n,
{
    if n < 10 {
        out.push((0x30 + n) as u8);
        assert(final(out)@ =~= old(out)@ + spec_dec_of(n as nat));
    } else {
        push_dec(n / 10, out);
        out.push((0x30 + n % 10) as u8);
        assert(final(out)@ =~= old(out)@ + spec_dec_of(n as nat));
    }
}

/// Appends the escaped form of one content byte to `out`.
fn push_esc_byte(b: u8, out: &mut Vec<u8>)
    ensures
        final(out)@ == old(out)@ + spec_esc_byte(b),
{
    if b == 0x22 {
        out.push(0x5c);
        out.push(0x22);
    } else if b == 0x5c {
        out.push(0x5c);
        out.push(0x5c);
    } else if b == 0x08 {
        out.push(0x5c);
        out.push(0x62);
    } else if b == 0x0c {
        out.push(0x5c);
        out.push(0x66);
    } else if b == 0x0a {
        out.push(0x5c);
        out.push(0x6e);
    } else if b == 0x0d {
        out.push(0x5c);
        out.push(0x72);
    } else if b == 0x09 {
        out.push(0x5c);
        out.push(0x74);
    } else if b < 0x20 {
        out.push(0x5c);
        out.push(0x75);
        out.push(0x30);
        out.push(0x30);
        let hi = b / 16;
        let lo = b % 16;
        out.push(if hi < 10 { (0x30 + hi) as u8 } else { (0x61 + (hi - 10)) as u8 });
        out.push(if lo < 10 { (0x30 + lo) as u8 } else { (0x61 + (lo - 10)) as u8 });
    } else {
        out.push(b);
    }
    assert(final(out)@ =~= old(out)@ + spec_esc_byte(b));
}

/// Appends a JSON string literal holding `content` to `out`.
pub fn push_str_lit(content: &Vec<u8>, out: &mut Vec<u8>)
    ensures
        final(out)@ == old(out)@ + spec_enc_str(content@),
{
    out.push(0x22);
    let n = content.len();
    let mut i: usize = 0;
    while i < n
        invariant
            i <= n,
            n == content@.len(),
            out@ == old(out)@ + seq![0x22u8] + spec_esc(content@.take(i as int)),
        decreases n - i,
    {
        proof {
            lemma_esc_snoc(content@.take(i as int), content@[i as int]);
            assert(content@.take(i as int).push(content@[i as int]) =~= content@.take(
                i as int + 1,
            ));
        }
        push_esc_byte(content[i], out);
        i = i + 1;
    }
    out.push(0x22);
    proof {
        assert(content@.take(n as int) =~= content@);
        assert(final(out)@ =~= old(out)@ + spec_enc_str(content@));
    }
}

/// Appends the serialized form of `j` to `out`.
pub fn push_json(j: &Json, out: &mut Vec<u8>)
    ensures
        final(out)@ == old(out)@ + spec_enc_json(jv(*j)),
    decreases *j,
{
    match j {
        Json::Null => {
            out.push(0x6e);
            out.push(0x75);
            out.push(0x6c);
            out.push(0x6c);
            assert(final(out)@ =~= old(out)@ + spec_enc_json(jv(*j)));
        },
        Json::Bool(b) => {
            if *b {
                out.push(0x74);
                out.push(0x72);
                out.push(0x75);
                out.push(0x65);
            } else {
                out.push(0x66);
                out.push(0x61);
                out.push(0x6c);
                out.push(0x73);
                out.push(0x65);
            }
            assert(final(out)@ =~= old(out)@ + spec_enc_json(jv(*j)));
        },
        Json::Num(lex) => {
            let n = lex.len();
            let mut i: usize = 0;
            while i < n
                invariant
                    i <= n,
                    n == lex@.len(),
                    out@ == old(out)@ + lex@.take(i as int),
                decreases n - i,
            {
                out.push(lex[i]);
                proof {
                    assert(lex@.take(i as int).push(lex@[i as int]) =~= lex@.take(i as int + 1));
                }
                i = i + 1;
            }
            assert(lex@.take(n as int) =~= lex@);
            assert(final(out)@ =~= old(out)@ + spec_enc_json(jv(*j)));
        },
        Json::Str(content) => {
            push_str_lit(content, out);
            assert(final(out)@ =~= old(out)@ + spec_enc_json(jv(*j)));
        },
        Json::Arr(elems) => {
            out.push(0x5b);
            let n = elems.len();
            let mut i: usize = 0;
            while i < n
                invariant
                    i <= n,
                    n == elems@.len(),
                    *j == Json::Arr(*elems),
                    out@ == old(out)@ + seq![0x5bu8] + spec_enc_elems(
                        jv_seq(elems@).take(i as int),
                    ),
                decreases n - i,
        {
                if i > 0 {
                    out.push(0x2c);
                }
                proof {
                    assert(decreases_to!(*j => j->Arr_0));
                    assert(j->Arr_0 == *elems);
                    assert(decreases_to!(*elems => elems@));
                    assert(decreases_to!(elems@ => elems@[i as int]));
                    assert(decreases_to!(*j => elems@[i as int]));
                }
                push_json(&elems[i], out);
                proof {
                    lemma_jv_seq_props(elems@);
                    let t = jv_seq(elems@).take(i as int);
                    assert(t.push(jv(elems@[i as int])) =~= jv_seq(elems@).take(i as int + 1));
                    if i > 0 {
                        lemma_enc_elems_snoc(t, jv(elems@[i as int]));
                        assert(out@ =~= old(out)@ + seq![0x5bu8] + spec_enc_elems(
                            jv_seq(elems@).take(i as int + 1),
                        ));
                    } else {
                        assert(spec_enc_elems(seq![jv(elems@[0])]) == spec_enc_json(
                            jv(elems@[0]),
                        ));
                        assert(out@ =~= old(out)@ + seq![0x5bu8] + spec_enc_elems(
                            jv_seq(elems@).take(1),
                        ));
                    }
                }
                i = i + 1;
            }
            out.push(0x5d);
            proof {
                lemma_jv_seq_props(elems@);
                assert(jv_seq(elems@).take(n as int) =~= jv_seq(elems@));
                assert(final(out)@ =~= old(out)@ + spec_enc_json(jv(*j)));
            }
        },
        Json::Obj(members) => {
            out.push(0x7b);
            let n = members.len();
            let mut i: usize = 0;
            while i < n
                invariant
                    i <= n,
                    n == members@.len(),
                    *j == Json::Obj(*members),
                    out@ == old(out)@ + seq![0x7bu8] + spec_enc_members(
                        jv_members(members@).take(i as int),
                    ),
                decreases n - i,
            {
                if i > 0 {
                    out.push(0x2c);
                }
                push_str_lit(&members[i].key, out);
                out.push(0x3a);
                proof {
                    assert(decreases_to!(*j => j->Obj_0));
                    assert(j->Obj_0 == *members);
                    assert(decreases_to!(*members => members@));
                    assert(decreases_to!(members@ => members@[i as int]));
                    assert(decreases_to!(members@[i as int] => members@[i as int].value));
                    assert(decreases_to!(*j => members@[i as int].value));
                }
                push_json(&members[i].value, out);
                proof {
                    lemma_jv_members_props(members@);
                    let mv = MemberV { key: members@[i as int].key@, value: jv(members@[i as int].value) };
                    let t = jv_members(members@).take(i as int);
                    assert(t.push(mv) =~= jv_members(members@).take(i as int + 1));
                    if i > 0 {
                        lemma_enc_members_snoc(t, mv);
                        assert(out@ =~= old(out)@ + seq![0x7bu8] + spec_enc_members(
                            jv_members(members@).take(i as int + 1),
                        ));
                    } else {
                        assert(spec_enc_members(seq![mv]) == spec_enc_member(mv));
                        assert(out@ =~= old(out)@ + seq![0x7bu8] + spec_enc_members(
                            jv_members(members@).take(1),
                        ));
                    }
                }
                i = i + 1;
            }
            out.push(0x7d);
            proof {
                lemma_jv_members_props(members@);
                assert(jv_members(members@).take(n as int) =~= jv_members(members@));
                assert(final(out)@ =~= old(out)@ + spec_enc_json(jv(*j)));
            }
        },
    }
}

/// Whether `b` may appear in a number literal (maximal-munch alphabet).
pub open spec fn spec_is_num_byte(b: u8) -> bool {
    spec_is_digit(b) || b == 0x2d || b == 0x2b || b == 0x2e || b == 0x65 || b == 0x45
}

/// Count of leading number-alphabet bytes.
pub open spec fn spec_num_len(s: Seq<u8>) -> int
    decreases s.len(),
{
    if s.len() > 0 && spec_is_num_byte(s[0]) {
        1 + spec_num_len(s.drop_first())
    } else {
        0
    }
}

/// Count of leading decimal digits.
pub open spec fn spec_digits_len(s: Seq<u8>) -> int
    decreases s.len(),
{
    if s.len() > 0 && spec_is_digit(s[0]) {
        1 + spec_digits_len(s.drop_first())
    } else {
        0
    }
}

/// Whether `s[p..]` is a well-formed exponent part: `e`/`E`, an optional
/// sign, and at least one digit reaching the end of `s`.
pub open spec fn spec_wf_exp(s: Seq<u8>, p: int) -> bool {
    0 <= p < s.len() && (s[p] == 0x65 || s[p] == 0x45) && {
        let q = if p + 1 < s.len() && (s[p + 1] == 0x2b || s[p + 1] == 0x2d) {
            p + 2
        } else {
            p + 1
        };
        let ed = spec_digits_len(s.skip(q));
        ed > 0 && q + ed == s.len()
    }
}

/// Whether `s` as a whole is a number literal: an optional minus sign,
/// digits, an optional fraction, an optional exponent. Leading zeros are
/// tolerated; the decoder is the lenient side of the codec.
pub open spec fn spec_wf_num(s: Seq<u8>) -> bool {
    let i: int = if s.len() > 0 && s[0] == 0x2d {
        1
    } else {
        0
    };
    let d = spec_digits_len(s.skip(i));
    if d <= 0 {
        false
    } else {
        let p = i + d;
        if p == s.len() {
            true
        } else if 0 <= p < s.len() && s[p] == 0x2e {
            let fd = spec_digits_len(s.skip(p + 1));
            if fd <= 0 {
                false
            } else {
                let p2 = p + 1 + fd;
                p2 == s.len() || spec_wf_exp(s, p2)
            }
        } else {
            spec_wf_exp(s, p)
        }
    }
}

/// What a number literal at the head of `s` parses to: the maximal run of
/// number-alphabet bytes, provided it is well formed.
pub open spec fn spec_parse_number(s: Seq<u8>) -> Option<(JsonV, int)> {
    let m = spec_num_len(s);
    if !(0 <= m <= s.len()) {
        None
    } else if spec_wf_num(s.take(m)) {
        Some((JsonV::Num(s.take(m)), m))
    } else {
        None
    }
}

/// Whether `b` is a hexadecimal digit.
pub open spec fn spec_is_hex(b: u8) -> bool {
    spec_is_digit(b) || 0x61 <= b <= 0x66 || 0x41 <= b <= 0x46
}

/// The value of a hexadecimal digit.
pub open spec fn spec_hex_val(b: u8) -> u8 {
    if spec_is_digit(b) {
        (b - 0x30) as u8
    } else if 0x61 <= b <= 0x66 {
        (b - 0x61 + 10) as u8
    } else {
        (b - 0x41 + 10) as u8
    }
}

/// The content byte a short escape code stands for.
pub open spec fn spec_unesc(e: u8) -> u8 {
    if e == 0x62 {
        0x08
    } else if e == 0x66 {
        0x0c
    } else if e == 0x6e {
        0x0a
    } else if e == 0x72 {
        0x0d
    } else if e == 0x74 {
        0x09
    } else {
        e  // `"`, `\\` and `/` stand for themselves
    }
}

/// Whether `e` is a short escape code.
pub open spec fn spec_is_short_esc(e: u8) -> bool {
    e == 0x22 || e == 0x5c || e == 0x2f || e == 0x62 || e == 0x66 || e == 0x6e || e == 0x72
        || e == 0x74
}

/// What the string body starting at `s` (just after the opening quote)
/// parses to: the content bytes and the count consumed, including the
/// closing quote. Raw control bytes are malformed; `\u` escapes are taken
/// for single bytes (`\u00XX`), the only form the codec ever emits.
pub open spec fn spec_parse_strbody(s: Seq<u8>) -> Option<(Seq<u8>, int)>
    decreases s.len(),
{
    if s.len() == 0 {
        None
    } else if s[0] == 0x22 {
        Some((Seq::empty(), 1))
    } else if s[0] == 0x5c {
        if s.len() < 2 {
            None
        } else {
            let e = s[1];
            if spec_is_short_esc(e) {
                match spec_parse_strbody(s.skip(2)) {
                    Some((c, n)) => Some((seq![spec_unesc(e)] + c, 2 + n)),
                    None => None,
                }
            } else if e == 0x75 {
                if s.len() >= 6 && s[2] == 0x30 && s[3] == 0x30 && spec_is_hex(s[4]) && spec_is_hex(
                    s[5],
                ) {
                    match spec_parse_strbody(s.skip(6)) {
                        Some((c, n)) => Some(
                            (seq![(16 * spec_hex_val(s[4]) + spec_hex_val(s[5])) as u8] + c, 6 + n),
                        ),
                        None => None,
                    }
                } else {
                    None
                }
            } else {
                None
            }
        }
    } else if s[0] < 0x20 {
        None
    } else {
        match spec_parse_strbody(s.skip(1)) {
            Some((c, n)) => Some((seq![s[0]] + c, 1 + n)),
            None => None,
        }
    }
}

/// What a string literal at the head of `s` parses to.
pub open spec fn spec_parse_string(s: Seq<u8>) -> Option<(Seq<u8>, int)> {
    if s.len() == 0 || s[0] != 0x22 {
        None
    } else {
        match spec_parse_strbody(s.drop_first()) {
            Some((c, n)) => Some((c, 1 + n)),
            None => None,
        }
    }
}

/// What a value at the head of `s` parses to, and how many bytes it takes.
/// The grammar is the compact form the peer emits: no padding between
/// tokens. The bounds guards are always true of the values the recursive
/// calls can produce; they keep termination checking local.
pub open spec fn spec_parse_value(s: Seq<u8>) -> Option<(JsonV, int)>
    decreases s.len(), 0int,
{
    if s.len() == 0 {
        None
    } else {
        let b = s[0];
        if b == 0x6e {
            if s.len() >= 4 && s[1] == 0x75 && s[2] == 0x6c && s[3] == 0x6c {
                Some((JsonV::Null, 4))
            } else {
                None
            }
        } else if b == 0x74 {
            if s.len() >= 4 && s[1] == 0x72 && s[2] == 0x75 && s[3] == 0x65 {
                Some((JsonV::Bool(true), 4))
            } else {
                None
            }
        } else if b == 0x66 {
            if s.len() >= 5 && s[1] == 0x61 && s[2] == 0x6c && s[3] == 0x73 && s[4] == 0x65 {
                Some((JsonV::Bool(false), 5))
            } else {
                None
            }
        } else if b == 0x22 {
            match spec_parse_string(s) {
                Some((c, n)) => Some((JsonV::Str(c), n)),
                None => None,
            }
        } else if b == 0x2d || spec_is_digit(b) {
            spec_parse_number(s)
        } else if b == 0x5b {
            if s.len() >= 2 && s[1] == 0x5d {
                Some((JsonV::Arr(Seq::empty()), 2))
            } else {
                match spec_parse_elems(s.drop_first()) {
                    Some((es, n)) => Some((JsonV::Arr(es), 1 + n)),
                    None => None,
                }
            }
        } else if b == 0x7b {
            if s.len() >= 2 && s[1] == 0x7d {
                Some((JsonV::Obj(Seq::empty()), 2))
            } else {
                match spec_parse_members(s.drop_first()) {
                    Some((ms, n)) => Some((JsonV::Obj(ms), 1 + n)),
                    None => None,
                }
            }
        } else {
            None
        }
    }
}

/// What a non-empty element list (everything after `[`, up to and
/// including `]`) parses to.
pub open spec fn spec_parse_elems(s: Seq<u8>) -> Option<(Seq<JsonV>, int)>
    decreases s.len(), 1int,
{
    match spec_parse_value(s) {
        None => None,
        Some((v, n)) => if !(1 <= n < s.len()) {
            None
        } else {
            if s[n] == 0x2c {
                match spec_parse_elems(s.skip(n + 1)) {
                    Some((rest, n2)) => Some((seq![v] + rest, n + 1 + n2)),
                    None => None,
                }
            } else if s[n] == 0x5d {
                Some((seq![v], n + 1))
            } else {
                None
            }
        },
    }
}

/// What a non-empty member list (everything after `{`, up to and
/// including `}`) parses to.
pub open spec fn spec_parse_members(s: Seq<u8>) -> Option<(Seq<MemberV>, int)>
    decreases s.len(), 1int,
{
    match spec_parse_string(s) {
        None => None,
        Some((key, n1)) => if !(1 <= n1 && n1 + 1 < s.len()) {
            None
        } else if s[n1] != 0x3a {
            None
        } else {
            match spec_parse_value(s.skip(n1 + 1)) {
                None => None,
                Some((v, n2)) => if !(1 <= n2 && n1 + 1 + n2 < s.len()) {
                    None
                } else {
                    if s[n1 + 1 + n2] == 0x2c {
                        match spec_parse_members(s.skip(n1 + 1 + n2 + 1)) {
                            Some((rest, n3)) => Some(
                                (
                                    seq![MemberV { key, value: v }] + rest,
                                    n1 + 1 + n2 + 1 + n3,
                                ),
                            ),
                            None => None,
                        }
                    } else if s[n1 + 1 + n2] == 0x7d {
                        Some((seq![MemberV { key, value: v }], n1 + 1 + n2 + 1))
                    } else {
                        None
                    }
                },
            }
        },
    }
}

/// What a whole byte text parses to: one value covering every byte.
pub open spec fn spec_parse_text(s: Seq<u8>) -> Option<JsonV> {
    match spec_parse_value(s) {
        Some((j, n)) => if n == s.len() {
            Some(j)
        } else {
            None
        },
        None => None,
    }
}

/// Well-formedness of a JSON model value: every number literal in it obeys
/// the number grammar. Encoding a well-formed value parses back to it.
pub open spec fn wf_jsonv(j: JsonV) -> bool
    decreases j, 1int,
{
    match j {
        JsonV::Null => true,
        JsonV::Bool(_) => true,
        JsonV::Num(lex) => spec_wf_num(lex),
        JsonV::Str(_) => true,
        JsonV::Arr(es) => wf_jsonv_seq(es),
        JsonV::Obj(ms) => wf_memberv_seq(ms),
    }
}

/// Well-formedness of every element.
pub open spec fn wf_jsonv_seq(s: Seq<JsonV>) -> bool
    decreases s, 0int,
{
    if s.len() == 0 {
        true
    } else {
        wf_jsonv(s[0]) && wf_jsonv_seq(s.drop_first())
    }
}

/// Well-formedness of every member value.
pub open spec fn wf_memberv_seq(s: Seq<MemberV>) -> bool
    decreases s, 0int,
{
    if s.len() == 0 {
        true
    } else {
        wf_jsonv(s[0].value) && wf_memberv_seq(s.drop_first())
    }
}

/// End index of the run of decimal digits starting at `i`.
fn scan_digits(s: &[u8], i: usize) -> (r: usize)
    requires
        i <= s@.len(),
    ensures
        i <= r <= s@.len(),
        r - i == spec_digits_len(s@.skip(i as int)),
    decreases s@.len() - i,
{
    if i < s.len() && 0x30 <= s[i] && s[i] <= 0x39 {
        let r = scan_digits(s, i + 1);
        proof {
            assert(s@.skip(i as int).drop_first() =~= s@.skip(i as int + 1));
        }
        r
    } else {
        proof {
            assert(i < s@.len() ==> s@.skip(i as int)[0] == s@[i as int]);
        }
        i
    }
}

/// End index of the run of number-alphabet bytes starting at `i`.
fn scan_num(s: &[u8], i: usize) -> (r: usize)
    requires
        i <= s@.len(),
    ensures
        i <= r <= s@.len(),
        r - i == spec_num_len(s@.skip(i as int)),
    decreases s@.len() - i,
{
    if i < s.len() && (0x30 <= s[i] && s[i] <= 0x39 || s[i] == 0x2d || s[i] == 0x2b || s[i]
        == 0x2e || s[i] == 0x65 || s[i] == 0x45) {
        let r = scan_num(s, i + 1);
        proof {
            assert(s@.skip(i as int).drop_first() =~= s@.skip(i as int + 1));
        }
        r
    } else {
        proof {
            assert(i < s@.len() ==> s@.skip(i as int)[0] == s@[i as int]);
        }
        i
    }
}

/// Whether the exponent grammar holds of `lex[p..]`.
fn check_exp(lex: &[u8], p: usize) -> (r: bool)
    requires
        p <= lex@.len(),
    ensures
        r == spec_wf_exp(lex@, p as int),
{
    let n = lex.len();
    if p >= n {
        return false;
    }
    if !(lex[p] == 0x65 || lex[p] == 0x45) {
        return false;
    }
    let q: usize = if p + 1 < n && (lex[p + 1] == 0x2b || lex[p + 1] == 0x2d) {
        p + 2
    } else {
        p + 1
    };
    let ed = scan_digits(lex, q);
    ed > q && ed == n
}

/// Whether the whole of `lex` obeys the number grammar.
fn check_num(lex: &[u8]) -> (r: bool)
    ensures
        r == spec_wf_num(lex@),
{
    let n = lex.len();
    let i: usize = if n > 0 && lex[0] == 0x2d {
        1
    } else {
        0
    };
    let d = scan_digits(lex, i);
    if d == i {
        return false;
    }
    if d == n {
        return true;
    }
    if lex[d] == 0x2e {
        let f = scan_digits(lex, d + 1);
        if f == d + 1 {
            return false;
        }
        if f == n {
            return true;
        }
        check_exp(lex, f)
    } else {
        check_exp(lex, d)
    }
}

/// The numeric value of a digit text, most significant digit first.
pub open spec fn spec_digits_val(s: Seq<u8>) -> int
    decreases s.len(),
{
    if s.len() == 0 {
        0
    } else {
        spec_digits_val(s.take(s.len() - 1)) * 10 + (s[s.len() - 1] - 0x30)
    }
}

/// Every byte before `spec_digits_len` is a digit, and the one at it, if
/// any, is not.
pub proof fn lemma_digits_prefix(s: Seq<u8>)
    ensures
        0 <= spec_digits_len(s) <= s.len(),
        forall|j: int| 0 <= j < spec_digits_len(s) ==> spec_is_digit(s[j]),
        spec_digits_len(s) < s.len() ==> !spec_is_digit(s[spec_digits_len(s)]),
    decreases s.len(),
{
    if s.len() > 0 && spec_is_digit(s[0]) {
        lemma_digits_prefix(s.drop_first());
        assert(forall|j: int| 0 <= j < s.drop_first().len() ==> s.drop_first()[j] == s[j + 1]);
        assert forall|j: int| 0 <= j < spec_digits_len(s) implies spec_is_digit(s[j]) by {
            if j > 0 {
                assert(spec_is_digit(s.drop_first()[j - 1]));
            }
        }
    }
}

/// Reads `lex` as an unsigned decimal integer: its value when `lex` is all
/// digits and the value fits in a `u64`, nothing otherwise.
pub fn parse_u64(lex: &[u8]) -> (r: Option<u64>)
    ensures
        match r {
            Some(v) => lex@.len() > 0 && spec_digits_len(lex@) == lex@.len() && spec_digits_val(
                lex@,
            ) == v,
            None => lex@.len() == 0 || spec_digits_len(lex@) != lex@.len() || spec_digits_val(lex@)
                > u64::MAX,
        },
{
    let n = lex.len();
    if n == 0 {
        return None;
    }
    let d = scan_digits(lex, 0);
    proof {
        assert(lex@.skip(0) =~= lex@);
    }
    if d != n {
        return None;
    }
    let mut acc: u64 = 0;
    let mut over: bool = false;
    let mut i: usize = 0;
    while i < n
        invariant
            i <= n,
            n == lex@.len(),
            spec_digits_len(lex@) == n,
            !over ==> acc == spec_digits_val(lex@.take(i as int)),
            over ==> spec_digits_val(lex@.take(i as int)) > u64::MAX,
        decreases n - i,
    {
        proof {
            lemma_digits_prefix(lex@);
            assert(lex@.take(i as int + 1).take(i as int) =~= lex@.take(i as int));
            assert(lex@.take(i as int + 1)[i as int] == lex@[i as int]);
        }
        let digit = lex[i];
        if over {
            proof {
                assert(spec_digits_val(lex@.take(i as int + 1)) == spec_digits_val(
                    lex@.take(i as int),
                ) * 10 + (digit - 0x30));
            }
        } else {
            if acc > 0xFFFF_FFFF_FFFF_FFFFu64 / 10 {
                over = true;
                proof {
                    assert(spec_digits_val(lex@.take(i as int + 1)) > u64::MAX);
                }
            } else {
                let next = acc * 10;
                let dv = (digit - 0x30) as u64;
                if next > 0xFFFF_FFFF_FFFF_FFFFu64 - dv {
                    over = true;
                    proof {
                        assert(spec_digits_val(lex@.take(i as int + 1)) > u64::MAX);
                    }
                } else {
                    acc = next + dv;
                }
            }
        }
        i = i + 1;
    }
    proof {
        assert(lex@.take(n as int) =~= lex@);
    }
    if over {
        None
    } else {
        Some(acc)
    }
}

/// Parses a number literal starting at `i`.
fn parse_number_at(s: &[u8], i: usize) -> (r: Option<(Json, usize)>)
    requires
        i < s@.len(),
    ensures
        match spec_parse_number(s@.skip(i as int)) {
            Some((jv0, n)) => match r {
                Some((j, e)) => jv(j) == jv0 && e == i + n && i < e <= s@.len(),
                None => false,
            },
            None => r is None,
        },
{
    let e = scan_num(s, i);
    let mut lex: Vec<u8> = Vec::new();
    let mut k: usize = i;
    while k < e
        invariant
            i <= k <= e <= s@.len(),
            lex@ == s@.subrange(i as int, k as int),
        decreases e - k,
    {
        lex.push(s[k]);
        proof {
            assert(s@.subrange(i as int, k as int).push(s@[k as int]) =~= s@.subrange(
                i as int,
                k as int + 1,
            ));
        }
        k = k + 1;
    }
    proof {
        assert(s@.skip(i as int).take((e - i) as int) =~= s@.subrange(i as int, e as int));
    }
    if check_num(lex.as_slice()) {
        proof {
            assert(jv(Json::Num(lex)) == JsonV::Num(lex@));
        }
        Some((Json::Num(lex), e))
    } else {
        None
    }
}

/// Parses a string literal starting at `i`; returns the content and the
/// index just past the closing quote.
fn parse_string_at(s: &[u8], i: usize) -> (r: Option<(Vec<u8>, usize)>)
    requires
        i < s@.len(),
    ensures
        match spec_parse_string(s@.skip(i as int)) {
            Some((c, n)) => match r {
                Some((content, e)) => content@ == c && e == i + n && i < e <= s@.len(),
                None => false,
            },
            None => r is None,
        },
{
    if s[i] != 0x22 {
        return None;
    }
    proof {
        assert(s@.skip(i as int)[0] == s@[i as int]);
        assert(s@.skip(i as int).drop_first() =~= s@.skip(i as int + 1));
    }
    let mut content: Vec<u8> = Vec::new();
    let mut p: usize = i + 1;
    loop
        invariant
            i + 1 <= p <= s@.len(),
            s@[i as int] == 0x22,
            s@.skip(i as int).drop_first() =~= s@.skip(i as int + 1),
            match spec_parse_strbody(s@.skip(p as int)) {
                Some((c2, n2)) => spec_parse_strbody(s@.skip(i as int + 1)) == Some(
                    (content@ + c2, (p - i - 1) + n2),
                ),
                None => spec_parse_strbody(s@.skip(i as int + 1)) is None,
            },
        decreases s@.len() - p,
    {
        if p >= s.len() {
            return None;
        }
        let b = s[p];
        proof {
            assert(s@.skip(p as int)[0] == s@[p as int]);
        }
        if b == 0x22 {
            proof {
                assert(spec_parse_strbody(s@.skip(p as int)) == Some((Seq::<u8>::empty(), 1int)));
                assert(content@ + Seq::<u8>::empty() =~= content@);
            }
            return Some((content, p + 1));
        } else if b == 0x5c {
            if p + 1 >= s.len() {
                proof {
                    assert(s@.skip(p as int).len() < 2);
                    assert(spec_parse_strbody(s@.skip(p as int)) is None);
                }
                return None;
            }
            let e = s[p + 1];
            proof {
                assert(s@.skip(p as int)[1] == s@[p as int + 1]);
            }
            if e == 0x22 || e == 0x5c || e == 0x2f || e == 0x62 || e == 0x66 || e == 0x6e || e
                == 0x72 || e == 0x74 {
                let decoded: u8 = if e == 0x62 {
                    0x08
                } else if e == 0x66 {
                    0x0c
                } else if e == 0x6e {
                    0x0a
                } else if e == 0x72 {
                    0x0d
                } else if e == 0x74 {
                    0x09
                } else {
                    e
                };
                proof {
                    assert(decoded == spec_unesc(e));
                    assert(s@.skip(p as int).skip(2) =~= s@.skip(p as int + 2));
                    if spec_parse_strbody(s@.skip(p as int + 2)) is Some {
                        let (c3, n3) = spec_parse_strbody(s@.skip(p as int + 2))->Some_0;
                        assert(spec_parse_strbody(s@.skip(p as int)) == Some(
                            (seq![spec_unesc(e)] + c3, 2 + n3),
                        ));
                        assert(content@ + (seq![spec_unesc(e)] + c3) =~= content@.push(decoded)
                            + c3);
                    }
                }
                content.push(decoded);
                p = p + 2;
            } else if e == 0x75 {
                if s.len() - p <= 5 || !(s[p + 2] == 0x30 && s[p + 3] == 0x30) {
                    proof {
                        let t = s@.skip(p as int);
                        assert(p as int + 5 >= s@.len() ==> t.len() < 6);
                        assert(p as int + 5 < s@.len() ==> (t[2] == s@[p as int + 2] && t[3]
                            == s@[p as int + 3]));
                        assert(spec_parse_strbody(t) is None);
                    }
                    return None;
                }
                let h1 = s[p + 4];
                let h2 = s[p + 5];
                let v1 = if 0x30 <= h1 && h1 <= 0x39 {
                    h1 - 0x30
                } else if 0x61 <= h1 && h1 <= 0x66 {
                    h1 - 0x61 + 10
                } else if 0x41 <= h1 && h1 <= 0x46 {
                    h1 - 0x41 + 10
                } else {
                    0xff
                };
                let v2 = if 0x30 <= h2 && h2 <= 0x39 {
                    h2 - 0x30
                } else if 0x61 <= h2 && h2 <= 0x66 {
                    h2 - 0x61 + 10
                } else if 0x41 <= h2 && h2 <= 0x46 {
                    h2 - 0x41 + 10
                } else {
                    0xff
                };
                proof {
                    let t = s@.skip(p as int);
                    assert(t[2] == s@[p as int + 2] && t[3] == s@[p as int + 3] && t[4] == s@[
                        p as int + 4
                    ] && t[5] == s@[p as int + 5]);
                }
                if v1 == 0xff || v2 == 0xff {
                    proof {
                        assert(!spec_is_hex(h1) || !spec_is_hex(h2));
                        assert(spec_parse_strbody(s@.skip(p as int)) is None);
                    }
                    return None;
                }
                let decoded = 16 * v1 + v2;
                proof {
                    assert(v1 == spec_hex_val(h1) && v2 == spec_hex_val(h2));
                    assert(s@.skip(p as int).skip(6) =~= s@.skip(p as int + 6));
                    if spec_parse_strbody(s@.skip(p as int + 6)) is Some {
                        let (c3, n3) = spec_parse_strbody(s@.skip(p as int + 6))->Some_0;
                        assert(spec_parse_strbody(s@.skip(p as int)) == Some(
                            (seq![decoded] + c3, 6 + n3),
                        ));
                        assert(content@ + (seq![decoded] + c3) =~= content@.push(decoded) + c3);
                    }
                }
                content.push(decoded);
                p = p + 6;
            } else {
                proof {
                    assert(spec_parse_strbody(s@.skip(p as int)) is None);
                }
                return None;
            }
        } else if b < 0x20 {
            proof {
                assert(spec_parse_strbody(s@.skip(p as int)) is None);
            }
            return None;
        } else {
            proof {
                assert(s@.skip(p as int).skip(1) =~= s@.skip(p as int + 1));
                if spec_parse_strbody(s@.skip(p as int + 1)) is Some {
                    let (c3, n3) = spec_parse_strbody(s@.skip(p as int + 1))->Some_0;
                    assert(spec_parse_strbody(s@.skip(p as int)) == Some((seq![b] + c3, 1 + n3)));
                    assert(content@ + (seq![b] + c3) =~= content@.push(b) + c3);
                }
            }
            content.push(b);
            p = p + 1;
        }
    }
}

/// Parses one value starting at `i`; returns it and the index just past it.
pub fn parse_value_at(s: &[u8], i: usize) -> (r: Option<(Json, usize)>)
    requires
        i <= s@.len(),
    ensures
        match spec_parse_value(s@.skip(i as int)) {
            Some((jv0, n)) => match r {
                Some((j, e)) => jv(j) == jv0 && e == i + n && i < e <= s@.len(),
                None => false,
            },
            None => r is None,
        },
    decreases s@.len() - i, 0int,
{
    if i >= s.len() {
        return None;
    }
    let b = s[i];
    proof {
        let t = s@.skip(i as int);
        assert(t[0] == s@[i as int]);
        assert(forall|k: int| 0 <= k < t.len() ==> t[k] == s@[i as int + k]);
    }
    if b == 0x6e {
        if s.len() - i > 3 && s[i + 1] == 0x75 && s[i + 2] == 0x6c && s[i + 3] == 0x6c {
            Some((Json::Null, i + 4))
        } else {
            None
        }
    } else if b == 0x74 {
        if s.len() - i > 3 && s[i + 1] == 0x72 && s[i + 2] == 0x75 && s[i + 3] == 0x65 {
            Some((Json::Bool(true), i + 4))
        } else {
            None
        }
    } else if b == 0x66 {
        if s.len() - i > 4 && s[i + 1] == 0x61 && s[i + 2] == 0x6c && s[i + 3] == 0x73 && s[i + 4]
            == 0x65 {
            Some((Json::Bool(false), i + 5))
        } else {
            None
        }
    } else if b == 0x22 {
        match parse_string_at(s, i) {
            Some((content, e)) => Some((Json::Str(content), e)),
            None => None,
        }
    } else if b == 0x2d || (0x30 <= b && b <= 0x39) {
        parse_number_at(s, i)
    } else if b == 0x5b {
        if i + 1 < s.len() && s[i + 1] == 0x5d {
            let elems: Vec<Json> = Vec::new();
            proof {
                assert(elems@ =~= Seq::<Json>::empty());
                assert(jv_seq(elems@) =~= Seq::<JsonV>::empty());
            }
            Some((Json::Arr(elems), i + 2))
        } else {
            proof {
                assert(s@.skip(i as int).drop_first() =~= s@.skip(i as int + 1));
            }
            match parse_elems_at(s, i + 1) {
                Some((elems, e)) => Some((Json::Arr(elems), e)),
                None => None,
            }
        }
    } else if b == 0x7b {
        if i + 1 < s.len() && s[i + 1] == 0x7d {
            let members: Vec<Member> = Vec::new();
            proof {
                assert(members@ =~= Seq::<Member>::empty());
                assert(jv_members(members@) =~= Seq::<MemberV>::empty());
            }
            Some((Json::Obj(members), i + 2))
        } else {
            proof {
                assert(s@.skip(i as int).drop_first() =~= s@.skip(i as int + 1));
            }
            match parse_members_at(s, i + 1) {
                Some((members, e)) => Some((Json::Obj(members), e)),
                None => None,
            }
        }
    } else {
        None
    }
}

/// Parses a non-empty element list starting at `i` (just after `[` or a
/// comma), through the closing `]`.
fn parse_elems_at(s: &[u8], i: usize) -> (r: Option<(Vec<Json>, usize)>)
    requires
        i <= s@.len(),
    ensures
        match spec_parse_elems(s@.skip(i as int)) {
            Some((es, n)) => match r {
                Some((elems, e)) => jv_seq(elems@) == es && e == i + n && i < e <= s@.len(),
                None => false,
            },
            None => r is None,
        },
    decreases s@.len() - i, 1int,
{
    match parse_value_at(s, i) {
        None => None,
        Some((v, e)) => {
            if e >= s.len() {
                return None;
            }
            proof {
                assert(s@.skip(i as int)[(e - i) as int] == s@[e as int]);
            }
            if s[e] == 0x2c {
                proof {
                    assert(s@.skip(i as int).skip((e - i) as int + 1) =~= s@.skip(e as int + 1));
                }
                match parse_elems_at(s, e + 1) {
                    Some((mut elems, e2)) => {
                        let ghost old_elems = elems@;
                        elems.insert(0, v);
                        proof {
                            assert(elems@ =~= seq![v] + old_elems);
                            assert(elems@.drop_first() =~= old_elems);
                            assert(jv_seq(elems@) =~= seq![jv(v)] + jv_seq(old_elems));
                        }
                        Some((elems, e2))
                    },
                    None => None,
                }
            } else if s[e] == 0x5d {
                let mut elems: Vec<Json> = Vec::new();
                elems.push(v);
                proof {
                    assert(elems@.len() == 1 && elems@[0] == v);
                    assert(elems@.drop_first() =~= Seq::<Json>::empty());
                    assert(jv_seq(elems@.drop_first()) =~= Seq::<JsonV>::empty());
                    assert(jv_seq(elems@) =~= seq![jv(v)]);
                }
                Some((elems, e + 1))
            } else {
                None
            }
        },
    }
}

/// Parses a non-empty member list starting at `i` (just after `{` or a
/// comma), through the closing `}`.
fn parse_members_at(s: &[u8], i: usize) -> (r: Option<(Vec<Member>, usize)>)
    requires
        i <= s@.len(),
    ensures
        match spec_parse_members(s@.skip(i as int)) {
            Some((ms, n)) => match r {
                Some((members, e)) => jv_members(members@) == ms && e == i + n && i < e
                    <= s@.len(),
                None => false,
            },
            None => r is None,
        },
    decreases s@.len() - i, 1int,
{
    if i >= s.len() {
        return None;
    }
    match parse_string_at(s, i) {
        None => None,
        Some((key, e1)) => {
            if e1 >= s.len() - 1 {
                return None;
            }
            proof {
                assert(s@.skip(i as int)[(e1 - i) as int] == s@[e1 as int]);
            }
            if s[e1] != 0x3a {
                return None;
            }
            proof {
                assert(s@.skip(i as int).skip((e1 - i) as int + 1) =~= s@.skip(e1 as int + 1));
            }
            match parse_value_at(s, e1 + 1) {
                None => None,
                Some((v, e2)) => {
                    if e2 >= s.len() {
                        return None;
                    }
                    proof {
                        assert(s@.skip(i as int)[(e2 - i) as int] == s@[e2 as int]);
                    }
                    let m = Member { key, value: v };
                    if s[e2] == 0x2c {
                        proof {
                            assert(s@.skip(i as int).skip((e2 - i) as int + 1) =~= s@.skip(
                                e2 as int + 1,
                            ));
                        }
                        match parse_members_at(s, e2 + 1) {
                            Some((mut members, e3)) => {
                                let ghost old_members = members@;
                                members.insert(0, m);
                                proof {
                                    assert(members@ =~= seq![m] + old_members);
                                    assert(members@.drop_first() =~= old_members);
                                    assert(jv_members(members@) =~= seq![m@] + jv_members(
                                        old_members,
                                    ));
                                }
                                Some((members, e3))
                            },
                            None => None,
                        }
                    } else if s[e2] == 0x7d {
                        let mut members: Vec<Member> = Vec::new();
                        members.push(m);
                        proof {
                            assert(members@.len() == 1 && members@[0] == m);
                            assert(members@.drop_first() =~= Seq::<Member>::empty());
                            assert(jv_members(members@.drop_first()) =~= Seq::<MemberV>::empty());
                            assert(jv_members(members@) =~= seq![members@[0]@]);
                        }
                        Some((members, e2 + 1))
                    } else {
                        None
                    }
                },
            }
        },
    }
}

/// Parses a whole byte text as one JSON value covering every byte.
pub fn parse_text(s: &[u8]) -> (r: Option<Json>)
    ensures
        match spec_parse_text(s@) {
            Some(jv0) => match r {
                Some(j) => jv(j) == jv0,
                None => false,
            },
            None => r is None,
        },
{
    proof {
        assert(s@.skip(0) =~= s@);
    }
    match parse_value_at(s, 0) {
        Some((j, e)) => {
            if e == s.len() {
                Some(j)
            } else {
                None
            }
        },
        None => None,
    }
}

/// Indexing into a suffix reads the underlying text at an offset.
proof fn lemma_skip_index(s: Seq<u8>, off: int)
    requires
        0 <= off <= s.len(),
    ensures
        s.skip(off).len() == s.len() - off,
        forall|k: int| 0 <= k < s.len() - off ==> s.skip(off)[k] == s[off + k],
{
}

/// A well-formed number literal is non-empty, opens with a minus sign or a
/// digit, and stays within the number alphabet.
proof fn lemma_wf_num_shape(s: Seq<u8>)
    requires
        spec_wf_num(s),
    ensures
        s.len() >= 1,
        s[0] == 0x2d || spec_is_digit(s[0]),
        forall|k: int| 0 <= k < s.len() ==> spec_is_num_byte(s[k]),
{
    let i: int = if s.len() > 0 && s[0] == 0x2d {
        1
    } else {
        0
    };
    if s.len() == 0 {
        assert(spec_digits_len(s.skip(0)) == 0);
        assert(false);
    }
    let d = spec_digits_len(s.skip(i));
    lemma_digits_prefix(s.skip(i));
    lemma_skip_index(s, i);
    assert(d > 0);
    let p = i + d;
    assert forall|k: int| i <= k < p implies spec_is_digit(s[k]) by {
        assert(spec_is_digit(s.skip(i)[k - i]));
        assert(s.skip(i)[k - i] == s[k]);
    }
    if i == 0 {
        assert(spec_is_digit(s[0]));
    }
    if p == s.len() {
        assert(forall|k: int| 0 <= k < s.len() ==> spec_is_num_byte(s[k]));
    } else if s[p] == 0x2e {
        let fd = spec_digits_len(s.skip(p + 1));
        assert(fd > 0);
        lemma_digits_prefix(s.skip(p + 1));
        lemma_skip_index(s, p + 1);
        let p2 = p + 1 + fd;
        assert forall|k: int| p + 1 <= k < p2 implies spec_is_digit(s[k]) by {
            assert(spec_is_digit(s.skip(p + 1)[k - (p + 1)]));
            assert(s.skip(p + 1)[k - (p + 1)] == s[k]);
        }
        if p2 == s.len() {
            assert(forall|k: int| 0 <= k < s.len() ==> spec_is_num_byte(s[k]));
        } else {
            lemma_wf_exp_bytes(s, p2);
            assert(forall|k: int| 0 <= k < s.len() ==> spec_is_num_byte(s[k]));
        }
    } else {
        lemma_wf_exp_bytes(s, p);
        assert(forall|k: int| 0 <= k < s.len() ==> spec_is_num_byte(s[k]));
    }
}

/// Every byte of a well-formed exponent part is in the number alphabet.
proof fn lemma_wf_exp_bytes(s: Seq<u8>, p: int)
    requires
        spec_wf_exp(s, p),
    ensures
        forall|k: int| p <= k < s.len() ==> spec_is_num_byte(s[k]),
{
    let q = if p + 1 < s.len() && (s[p + 1] == 0x2b || s[p + 1] == 0x2d) {
        p + 2
    } else {
        p + 1
    };
    lemma_digits_prefix(s.skip(q));
    lemma_skip_index(s, q);
    assert forall|k: int| q <= k < s.len() implies spec_is_digit(s[k]) by {
        assert(spec_is_digit(s.skip(q)[k - q]));
        assert(s.skip(q)[k - q] == s[k]);
    }
}

/// Maximal munch stops exactly at the end of `a` when everything in `a` is
/// in the number alphabet and `b` opens outside it.
proof fn lemma_num_len_concat(a: Seq<u8>, b: Seq<u8>)
    requires
        forall|k: int| 0 <= k < a.len() ==> spec_is_num_byte(a[k]),
        b.len() == 0 || !spec_is_num_byte(b[0]),
    ensures
        spec_num_len(a + b) == a.len(),
    decreases a.len(),
{
    if a.len() == 0 {
        assert(a + b =~= b);
    } else {
        assert((a + b)[0] == a[0]);
        assert((a + b).drop_first() =~= a.drop_first() + b);
        lemma_num_len_concat(a.drop_first(), b);
    }
}

/// A well-formed number literal parses back to itself whatever follows it,
/// provided what follows opens outside the number alphabet.
proof fn lemma_parse_number_enc(lex: Seq<u8>, rest: Seq<u8>)
    requires
        spec_wf_num(lex),
        rest.len() == 0 || !spec_is_num_byte(rest[0]),
    ensures
        spec_parse_number(lex + rest) == Some((JsonV::Num(lex), lex.len() as int)),
{
    lemma_wf_num_shape(lex);
    lemma_num_len_concat(lex, rest);
    assert((lex + rest).take(lex.len() as int) =~= lex);
}

/// The emitted hex digit reads back as its value.
proof fn lemma_hex_digit_val(n: u8)
    requires
        n < 16,
    ensures
        spec_is_hex(spec_hex_digit(n)),
        spec_hex_val(spec_hex_digit(n)) == n,
{
}

/// A string body, as the serializer escapes it, parses back to the same
/// content and consumes exactly through the closing quote.
proof fn lemma_parse_strbody_enc(content: Seq<u8>, rest: Seq<u8>)
    ensures
        spec_parse_strbody(spec_esc(content) + seq![0x22] + rest) == Some(
            (content, spec_esc(content).len() + 1int),
        ),
    decreases content.len(),
{
    let input = spec_esc(content) + seq![0x22] + rest;
    if content.len() == 0 {
        assert(input[0] == 0x22);
        assert(spec_parse_strbody(input) == Some((Seq::<u8>::empty(), 1int)));
        assert(content =~= Seq::<u8>::empty());
    } else {
        let b = content[0];
        let tail = content.drop_first();
        let inner = spec_esc(tail) + seq![0x22] + rest;
        lemma_parse_strbody_enc(tail, rest);
        assert(spec_esc(content) == spec_esc_byte(b) + spec_esc(tail));
        if b == 0x22 || b == 0x5c || b == 0x08 || b == 0x0c || b == 0x0a || b == 0x0d || b
            == 0x09 {
            let code: u8 = if b == 0x22 {
                0x22
            } else if b == 0x5c {
                0x5c
            } else if b == 0x08 {
                0x62
            } else if b == 0x0c {
                0x66
            } else if b == 0x0a {
                0x6e
            } else if b == 0x0d {
                0x72
            } else {
                0x74
            };
            assert(spec_esc_byte(b) =~= seq![0x5c, code]);
            assert(input[0] == 0x5c && input[1] == code);
            assert(input.len() >= 2);
            assert(spec_is_short_esc(code));
            assert(spec_unesc(code) == b);
            assert(input.skip(2) =~= inner);
            assert(seq![b] + (tail + Seq::<u8>::empty()) =~= content);
            assert(seq![b] + tail =~= content);
            assert(spec_parse_strbody(input) == Some((content, 2 + spec_esc(tail).len() + 1int)));
            assert(spec_esc(content).len() == 2 + spec_esc(tail).len());
        } else if b < 0x20 {
            let hi = b / 16;
            let lo = b % 16;
            lemma_hex_digit_val(hi);
            lemma_hex_digit_val(lo);
            assert(spec_esc_byte(b) =~= seq![
                0x5c,
                0x75,
                0x30,
                0x30,
                spec_hex_digit(hi),
                spec_hex_digit(lo),
            ]);
            assert(input[0] == 0x5c && input[1] == 0x75 && input[2] == 0x30 && input[3] == 0x30);
            assert(input[4] == spec_hex_digit(hi) && input[5] == spec_hex_digit(lo));
            assert(input.len() >= 6);
            assert(!spec_is_short_esc(0x75));
            assert(16 * spec_hex_val(input[4]) + spec_hex_val(input[5]) == b);
            assert(input.skip(6) =~= inner);
            assert(seq![b] + tail =~= content);
            assert(spec_parse_strbody(input) == Some((content, 6 + spec_esc(tail).len() + 1int)));
            assert(spec_esc(content).len() == 6 + spec_esc(tail).len());
        } else {
            assert(spec_esc_byte(b) =~= seq![b]);
            assert(input[0] == b);
            assert(b != 0x22 && b != 0x5c && b >= 0x20);
            assert(input.skip(1) =~= inner);
            assert(seq![b] + tail =~= content);
            assert(spec_parse_strbody(input) == Some((content, 1 + spec_esc(tail).len() + 1int)));
            assert(spec_esc(content).len() == 1 + spec_esc(tail).len());
        }
    }
}

/// A string literal, as the serializer writes it, parses back to the same
/// content and consumes exactly its own bytes.
proof fn lemma_parse_string_enc(content: Seq<u8>, rest: Seq<u8>)
    ensures
        spec_parse_string(spec_enc_str(content) + rest) == Some(
            (content, spec_enc_str(content).len() as int),
        ),
{
    let input = spec_enc_str(content) + rest;
    assert(input[0] == 0x22);
    assert(input.drop_first() =~= spec_esc(content) + seq![0x22] + rest);
    lemma_parse_strbody_enc(content, rest);
    assert(spec_enc_str(content).len() == spec_esc(content).len() + 2);
}

/// The first byte of an encoded well-formed value is one a value may open
/// with; in particular it is none of the listing separators or closers.
proof fn lemma_enc_first(j: JsonV)
    requires
        wf_jsonv(j),
    ensures
        spec_enc_json(j).len() >= 1,
        ({
            let b = spec_enc_json(j)[0];
            (b == 0x6e || b == 0x74 || b == 0x66 || b == 0x22 || b == 0x2d || spec_is_digit(b)
                || b == 0x5b || b == 0x7b) && b != 0x5d && b != 0x7d && b != 0x2c && b != 0x3a
        }),
{
    match j {
        JsonV::Num(lex) => {
            lemma_wf_num_shape(lex);
        },
        _ => {},
    }
}

/// A serialized well-formed value parses back to exactly itself, whatever
/// follows it, provided what follows cannot extend a number literal.
pub proof fn lemma_parse_value_enc(j: JsonV, rest: Seq<u8>)
    requires
        wf_jsonv(j),
        rest.len() == 0 || !spec_is_num_byte(rest[0]),
    ensures
        spec_parse_value(spec_enc_json(j) + rest) == Some((j, spec_enc_json(j).len() as int)),
    decreases j, 0int,
{
    let enc = spec_enc_json(j);
    let input = enc + rest;
    match j {
        JsonV::Null => {
            assert(input[0] == 0x6e && input[1] == 0x75 && input[2] == 0x6c && input[3] == 0x6c);
            assert(spec_parse_value(input) == Some((JsonV::Null, 4int)));
        },
        JsonV::Bool(b) => {
            if b {
                assert(input[0] == 0x74 && input[1] == 0x72 && input[2] == 0x75 && input[3]
                    == 0x65);
                assert(spec_parse_value(input) == Some((JsonV::Bool(true), 4int)));
            } else {
                assert(input[0] == 0x66 && input[1] == 0x61 && input[2] == 0x6c && input[3]
                    == 0x73 && input[4] == 0x65);
                assert(spec_parse_value(input) == Some((JsonV::Bool(false), 5int)));
            }
        },
        JsonV::Num(lex) => {
            lemma_wf_num_shape(lex);
            assert(input[0] == lex[0]);
            lemma_parse_number_enc(lex, rest);
            assert(spec_parse_value(input) == spec_parse_number(input));
        },
        JsonV::Str(content) => {
            assert(input[0] == 0x22);
            lemma_parse_string_enc(content, rest);
            assert(spec_parse_value(input) == Some((JsonV::Str(content), enc.len() as int)));
        },
        JsonV::Arr(es) => {
            assert(input[0] == 0x5b);
            if es.len() == 0 {
                assert(spec_enc_elems(es) =~= Seq::<u8>::empty());
                assert(enc =~= seq![0x5b, 0x5d]);
                assert(input.len() >= 2 && input[1] == 0x5d);
                assert(es =~= Seq::<JsonV>::empty());
                assert(spec_parse_value(input) == Some((JsonV::Arr(es), 2int)));
            } else {
                assert(wf_jsonv(es[0]));
                lemma_enc_first(es[0]);
                assert(spec_enc_elems(es)[0] == spec_enc_json(es[0])[0]);
                assert(input.len() >= 2);
                assert(input[1] == spec_enc_elems(es)[0]);
                assert(input[1] != 0x5d);
                assert(input.drop_first() =~= spec_enc_elems(es) + seq![0x5d] + rest);
                lemma_parse_elems_enc(es, rest);
                assert(enc.len() == 1 + spec_enc_elems(es).len() + 1);
                assert(spec_parse_value(input) == Some((JsonV::Arr(es), enc.len() as int)));
            }
        },
        JsonV::Obj(ms) => {
            assert(input[0] == 0x7b);
            if ms.len() == 0 {
                assert(spec_enc_members(ms) =~= Seq::<u8>::empty());
                assert(enc =~= seq![0x7b, 0x7d]);
                assert(input.len() >= 2 && input[1] == 0x7d);
                assert(ms =~= Seq::<MemberV>::empty());
                assert(spec_parse_value(input) == Some((JsonV::Obj(ms), 2int)));
            } else {
                assert(spec_enc_member(ms[0])[0] == 0x22);
                assert(spec_enc_members(ms)[0] == spec_enc_member(ms[0])[0]);
                assert(input.len() >= 2);
                assert(input[1] == spec_enc_members(ms)[0]);
                assert(input[1] != 0x7d);
                assert(input.drop_first() =~= spec_enc_members(ms) + seq![0x7d] + rest);
                lemma_parse_members_enc(ms, rest);
                assert(enc.len() == 1 + spec_enc_members(ms).len() + 1);
                assert(spec_parse_value(input) == Some((JsonV::Obj(ms), enc.len() as int)));
            }
        },
    }
}

/// A serialized non-empty element list followed by `]` parses back to the
/// same elements.
proof fn lemma_parse_elems_enc(es: Seq<JsonV>, rest: Seq<u8>)
    requires
        es.len() >= 1,
        wf_jsonv_seq(es),
        rest.len() == 0 || !spec_is_num_byte(rest[0]),
    ensures
        spec_parse_elems(spec_enc_elems(es) + seq![0x5d] + rest) == Some(
            (es, spec_enc_elems(es).len() + 1int),
        ),
    decreases es, 1int,
{
    let input = spec_enc_elems(es) + seq![0x5d] + rest;
    assert(wf_jsonv(es[0]));
    lemma_enc_first(es[0]);
    let n = spec_enc_json(es[0]).len() as int;
    if es.len() == 1 {
        let rest1 = seq![0x5d] + rest;
        assert(input =~= spec_enc_json(es[0]) + rest1);
        lemma_parse_value_enc(es[0], rest1);
        assert(spec_parse_value(input) == Some((es[0], n)));
        assert(input.len() == n + 1 + rest.len());
        assert(input[n] == 0x5d);
        assert(seq![es[0]] =~= es);
        assert(spec_parse_elems(input) == Some((es, n + 1)));
    } else {
        let tail = es.drop_first();
        assert(wf_jsonv_seq(tail));
        assert(tail.len() >= 1);
        let rest1 = seq![0x2c] + spec_enc_elems(tail) + seq![0x5d] + rest;
        assert(input =~= spec_enc_json(es[0]) + rest1);
        lemma_parse_value_enc(es[0], rest1);
        assert(spec_parse_value(input) == Some((es[0], n)));
        assert(input.len() == n + 1 + spec_enc_elems(tail).len() + 1 + rest.len());
        assert(input[n] == 0x2c);
        assert(input.skip(n + 1) =~= spec_enc_elems(tail) + seq![0x5d] + rest);
        lemma_parse_elems_enc(tail, rest);
        let m = spec_enc_elems(tail).len() + 1int;
        assert(spec_parse_elems(input.skip(n + 1)) == Some((tail, m)));
        assert(seq![es[0]] + tail =~= es);
        assert(spec_enc_elems(es).len() == n + 1 + spec_enc_elems(tail).len());
        assert(spec_parse_elems(input) == Some((es, n + 1 + m)));
    }
}

/// A serialized non-empty member list followed by `}` parses back to the
/// same members.
#[verifier::rlimit(100)]
#[verifier::spinoff_prover]
proof fn lemma_parse_members_enc(ms: Seq<MemberV>, rest: Seq<u8>)
    requires
        ms.len() >= 1,
        wf_memberv_seq(ms),
        rest.len() == 0 || !spec_is_num_byte(rest[0]),
    ensures
        spec_parse_members(spec_enc_members(ms) + seq![0x7d] + rest) == Some(
            (ms, spec_enc_members(ms).len() + 1int),
        ),
    decreases ms, 1int,
{
    let input = spec_enc_members(ms) + seq![0x7d] + rest;
    let m0 = ms[0];
    assert(wf_jsonv(m0.value));
    lemma_enc_first(m0.value);
    let n1 = spec_enc_str(m0.key).len() as int;
    let n2 = spec_enc_json(m0.value).len() as int;
    assert(spec_enc_member(m0) == spec_enc_str(m0.key) + seq![0x3a] + spec_enc_json(m0.value));
    if ms.len() == 1 {
        let rest1 = seq![0x3a] + spec_enc_json(m0.value) + seq![0x7d] + rest;
        assert(input =~= spec_enc_str(m0.key) + rest1);
        lemma_parse_string_enc(m0.key, rest1);
        assert(spec_parse_string(input) == Some((m0.key, n1)));
        assert(input.len() == n1 + 1 + n2 + 1 + rest.len());
        assert(input[n1] == 0x3a);
        assert(input.skip(n1 + 1) =~= spec_enc_json(m0.value) + (seq![0x7d] + rest));
        lemma_parse_value_enc(m0.value, seq![0x7d] + rest);
        assert(spec_parse_value(input.skip(n1 + 1)) == Some((m0.value, n2)));
        assert(input[n1 + 1 + n2] == 0x7d);
        assert(MemberV { key: m0.key, value: m0.value } == m0);
        assert(seq![m0] =~= ms);
        assert(spec_parse_members(input) == Some((ms, n1 + 1 + n2 + 1)));
        assert(spec_enc_members(ms).len() == n1 + 1 + n2);
    } else {
        let tail = ms.drop_first();
        assert(wf_memberv_seq(tail));
        assert(tail.len() >= 1);
        let after = seq![0x2c] + spec_enc_members(tail) + seq![0x7d] + rest;
        let rest1 = seq![0x3a] + spec_enc_json(m0.value) + after;
        assert(input =~= spec_enc_str(m0.key) + rest1);
        lemma_parse_string_enc(m0.key, rest1);
        assert(spec_parse_string(input) == Some((m0.key, n1)));
        assert(input.len() == n1 + 1 + n2 + 1 + spec_enc_members(tail).len() + 1 + rest.len());
        assert(input[n1] == 0x3a);
        assert(input.skip(n1 + 1) =~= spec_enc_json(m0.value) + after);
        lemma_parse_value_enc(m0.value, after);
        assert(spec_parse_value(input.skip(n1 + 1)) == Some((m0.value, n2)));
        assert(input[n1 + 1 + n2] == 0x2c);
        assert(input.skip(n1 + 1 + n2 + 1) =~= spec_enc_members(tail) + seq![0x7d] + rest);
        lemma_parse_members_enc(tail, rest);
        let m = spec_enc_members(tail).len() + 1int;
        assert(spec_parse_members(input.skip(n1 + 1 + n2 + 1)) == Some((tail, m)));
        assert(MemberV { key: m0.key, value: m0.value } == m0);
        assert(seq![m0] + tail =~= ms);
        assert(spec_enc_members(ms).len() == n1 + 1 + n2 + 1 + spec_enc_members(tail).len());
        assert(spec_parse_members(input) == Some((ms, n1 + 1 + n2 + 1 + m)));
    }
}

/// Serializing a well-formed value and parsing the whole text back is the
/// identity.
pub proof fn lemma_parse_text_enc(j: JsonV)
    requires
        wf_jsonv(j),
    ensures
        spec_parse_text(spec_enc_json(j)) == Some(j),
{
    lemma_parse_value_enc(j, Seq::empty());
    assert(spec_enc_json(j) + Seq::<u8>::empty() =~= spec_enc_json(j));
}

/// A parsed string body consumes at least its closing quote and at most
/// the whole input.
proof fn lemma_strbody_bounds(s: Seq<u8>)
    ensures
        spec_parse_strbody(s) matches Some((c, n)) ==> 1 <= n <= s.len(),
    decreases s.len(),
{
    if s.len() > 0 {
        if s[0] == 0x5c {
            if s.len() >= 2 {
                lemma_strbody_bounds(s.skip(2));
                if s.len() >= 6 {
                    lemma_strbody_bounds(s.skip(6));
                }
            }
        } else {
            lemma_strbody_bounds(s.skip(1));
        }
    }
}

/// Whatever the parser accepts is well formed, and consumes at least one
/// byte and at most the whole input.
pub proof fn lemma_parse_value_wf(s: Seq<u8>)
    ensures
        spec_parse_value(s) matches Some((j, n)) ==> wf_jsonv(j) && 1 <= n <= s.len(),
    decreases s.len(), 0int,
{
    if s.len() == 0 {
        return;
    }
    let b = s[0];
    if b == 0x22 {
        lemma_strbody_bounds(s.drop_first());
    } else if b == 0x2d || spec_is_digit(b) {
        let m = spec_num_len(s);
        if 0 <= m <= s.len() && spec_wf_num(s.take(m)) {
            lemma_wf_num_shape(s.take(m));
        }
    } else if b == 0x5b {
        if !(s.len() >= 2 && s[1] == 0x5d) {
            lemma_parse_elems_wf(s.drop_first());
        }
    } else if b == 0x7b {
        if !(s.len() >= 2 && s[1] == 0x7d) {
            lemma_parse_members_wf(s.drop_first());
        }
    }
}

/// Elements the parser accepts are each well formed.
proof fn lemma_parse_elems_wf(s: Seq<u8>)
    ensures
        spec_parse_elems(s) matches Some((es, n)) ==> wf_jsonv_seq(es) && 1 <= n <= s.len(),
    decreases s.len(), 1int,
{
    lemma_parse_value_wf(s);
    match spec_parse_value(s) {
        Some((v, n)) => {
            if 1 <= n < s.len() {
                if s[n] == 0x2c {
                    lemma_parse_elems_wf(s.skip(n + 1));
                    match spec_parse_elems(s.skip(n + 1)) {
                        Some((restv, n2)) => {
                            assert((seq![v] + restv).drop_first() =~= restv);
                            assert(wf_jsonv_seq(seq![v] + restv));
                        },
                        None => {},
                    }
                } else if s[n] == 0x5d {
                    assert(seq![v][0] == v);
                    assert(wf_jsonv(v));
                    assert((seq![v]).drop_first() =~= Seq::<JsonV>::empty());
                    assert(wf_jsonv_seq(Seq::<JsonV>::empty()));
                    assert(wf_jsonv_seq(seq![v]));
                }
            }
        },
        None => {},
    }
}

/// Member values the parser accepts are each well formed.
proof fn lemma_parse_members_wf(s: Seq<u8>)
    ensures
        spec_parse_members(s) matches Some((ms, n)) ==> wf_memberv_seq(ms) && 1 <= n <= s.len(),
    decreases s.len(), 1int,
{
    if s.len() > 0 {
        lemma_strbody_bounds(s.drop_first());
    }
    match spec_parse_string(s) {
        Some((key, n1)) => {
            if 1 <= n1 && n1 + 1 < s.len() && s[n1] == 0x3a {
                lemma_parse_value_wf(s.skip(n1 + 1));
                match spec_parse_value(s.skip(n1 + 1)) {
                    Some((v, n2)) => {
                        if 1 <= n2 && n1 + 1 + n2 < s.len() {
                            let m = MemberV { key, value: v };
                            if s[n1 + 1 + n2] == 0x2c {
                                lemma_parse_members_wf(s.skip(n1 + 1 + n2 + 1));
                                match spec_parse_members(s.skip(n1 + 1 + n2 + 1)) {
                                    Some((restm, n3)) => {
                                        assert((seq![m] + restm).drop_first() =~= restm);
                                        assert(wf_memberv_seq(seq![m] + restm));
                                    },
                                    None => {},
                                }
                            } else if s[n1 + 1 + n2] == 0x7d {
                                assert(seq![m][0] == m);
                                assert(m.value == v);
                                assert(wf_jsonv(m.value));
                                assert((seq![m]).drop_first() =~= Seq::<MemberV>::empty());
                                assert(wf_memberv_seq(Seq::<MemberV>::empty()));
                                assert(wf_memberv_seq(seq![m]));
                            }
                        }
                    },
                    None => {},
                }
            }
        },
        None => {},
    }
}

/// A whole text the parser accepts is well formed, so re-encoding it and
/// parsing again gives the same value.
pub proof fn lemma_parse_text_wf(s: Seq<u8>)
    ensures
        spec_parse_text(s) matches Some(j) ==> wf_jsonv(j),
{
    lemma_parse_value_wf(s);
}

/// Decimal text consists of digits alone.
pub proof fn lemma_dec_of_digits(n: nat)
    ensures
        spec_dec_of(n).len() >= 1,
        forall|k: int| 0 <= k < spec_dec_of(n).len() ==> spec_is_digit(spec_dec_of(n)[k]),
    decreases n,
{
    if n >= 10 {
        lemma_dec_of_digits(n / 10);
        assert(forall|k: int|
            0 <= k < spec_dec_of(n / 10).len() ==> spec_dec_of(n)[k] == spec_dec_of(n / 10)[k]);
    }
}

/// All-digit texts are counted whole by the digit scan.
proof fn lemma_digits_len_all(s: Seq<u8>)
    requires
        forall|k: int| 0 <= k < s.len() ==> spec_is_digit(s[k]),
    ensures
        spec_digits_len(s) == s.len(),
    decreases s.len(),
{
    if s.len() > 0 {
        assert(forall|k: int| 0 <= k < s.drop_first().len() ==> s.drop_first()[k] == s[k + 1]);
        lemma_digits_len_all(s.drop_first());
    }
}

/// Decimal text is a well-formed number literal.
pub proof fn lemma_dec_of_wf(n: nat)
    ensures
        spec_wf_num(spec_dec_of(n)),
{
    let s = spec_dec_of(n);
    lemma_dec_of_digits(n);
    lemma_digits_len_all(s);
    assert(s.skip(0) =~= s);
}

/// Reading decimal text back gives the number it was printed from.
pub proof fn lemma_dec_of_val(n: nat)
    ensures
        spec_digits_val(spec_dec_of(n)) == n,
    decreases n,
{
    if n < 10 {
        let s = spec_dec_of(n);
        assert(s =~= seq![(0x30 + n) as u8]);
        assert(s.len() == 1);
        assert(s.take(0) =~= Seq::<u8>::empty());
        assert(spec_digits_val(Seq::<u8>::empty()) == 0);
        assert(s[0] == (0x30 + n) as u8);
        assert(spec_digits_val(s) == 0 * 10 + (s[0] - 0x30));
    } else {
        lemma_dec_of_val(n / 10);
        let s = spec_dec_of(n);
        let p = spec_dec_of(n / 10);
        assert(s =~= p + seq![(0x30 + n % 10) as u8]);
        assert(s.take(s.len() - 1) =~= p);
        assert(s[s.len() - 1] == (0x30 + n % 10) as u8);
    }
}

/// A deep copy with the same model.
pub fn clone_json(j: &Json) -> (r: Json)
    ensures
        jv(r) == jv(*j),
    decreases *j,
{
    match j {
        Json::Null => Json::Null,
        Json::Bool(b) => Json::Bool(*b),
        Json::Num(lex) => Json::Num(vstd::slice::slice_to_vec(lex.as_slice())),
        Json::Str(content) => Json::Str(vstd::slice::slice_to_vec(content.as_slice())),
        Json::Arr(elems) => {
            let n = elems.len();
            let mut out: Vec<Json> = Vec::new();
            let mut i: usize = 0;
            proof {
                assert(out@ =~= Seq::<Json>::empty());
                assert(jv_seq(elems@.take(0)) =~= Seq::<JsonV>::empty());
            }
            while i < n
                invariant
                    i <= n,
                    n == elems@.len(),
                    *j == Json::Arr(*elems),
                    jv_seq(out@) == jv_seq(elems@.take(i as int)),
                decreases n - i,
            {
                proof {
                    assert(decreases_to!(*j => j->Arr_0));
                    assert(j->Arr_0 == *elems);
                    assert(decreases_to!(*elems => elems@));
                    assert(decreases_to!(elems@ => elems@[i as int]));
                    assert(decreases_to!(*j => elems@[i as int]));
                }
                let c = clone_json(&elems[i]);
                let ghost oldout = out@;
                out.push(c);
                proof {
                    lemma_jv_seq_props(out@);
                    lemma_jv_seq_props(oldout);
                    lemma_jv_seq_props(elems@.take(i as int));
                    lemma_jv_seq_props(elems@.take(i as int + 1));
                    assert forall|k: int|
                        0 <= k < i + 1 implies jv_seq(out@)[k] == jv_seq(
                        elems@.take(i as int + 1),
                    )[k] by {
                        assert(elems@.take(i as int + 1)[k] == elems@[k]);
                        if k < i {
                            assert(jv_seq(out@)[k] == jv(oldout[k]));
                            assert(jv_seq(oldout)[k] == jv(oldout[k]));
                            assert(jv_seq(elems@.take(i as int))[k] == jv(elems@[k]));
                        } else {
                            assert(out@[k] == c);
                        }
                    }
                    assert(jv_seq(out@) =~= jv_seq(elems@.take(i as int + 1)));
                }
                i = i + 1;
            }
            proof {
                assert(elems@.take(n as int) =~= elems@);
            }
            Json::Arr(out)
        },
        Json::Obj(members) => {
            let n = members.len();
            let mut out: Vec<Member> = Vec::new();
            let mut i: usize = 0;
            proof {
                assert(out@ =~= Seq::<Member>::empty());
                assert(jv_members(members@.take(0)) =~= Seq::<MemberV>::empty());
            }
            while i < n
                invariant
                    i <= n,
                    n == members@.len(),
                    *j == Json::Obj(*members),
                    jv_members(out@) == jv_members(members@.take(i as int)),
                decreases n - i,
            {
                proof {
                    assert(decreases_to!(*j => j->Obj_0));
                    assert(j->Obj_0 == *members);
                    assert(decreases_to!(*members => members@));
                    assert(decreases_to!(members@ => members@[i as int]));
                    assert(decreases_to!(members@[i as int] => members@[i as int].value));
                    assert(decreases_to!(*j => members@[i as int].value));
                }
                let c = clone_json(&members[i].value);
                let k = vstd::slice::slice_to_vec(members[i].key.as_slice());
                let ghost oldout = out@;
                out.push(Member { key: k, value: c });
                proof {
                    lemma_jv_members_props(out@);
                    lemma_jv_members_props(oldout);
                    lemma_jv_members_props(members@.take(i as int));
                    lemma_jv_members_props(members@.take(i as int + 1));
                    assert forall|k: int|
                        0 <= k < i + 1 implies jv_members(out@)[k] == jv_members(
                        members@.take(i as int + 1),
                    )[k] by {
                        assert(members@.take(i as int + 1)[k] == members@[k]);
                        if k < i {
                            assert(jv_members(out@)[k] == (MemberV {
                                key: oldout[k].key@,
                                value: jv(oldout[k].value),
                            }));
                            assert(jv_members(oldout)[k] == (MemberV {
                                key: oldout[k].key@,
                                value: jv(oldout[k].value),
                            }));
                            assert(jv_members(members@.take(i as int))[k] == (MemberV {
                                key: members@[k].key@,
                                value: jv(members@[k].value),
                            }));
                        } else {
                            assert(out@[k].key@ == members@[i as int].key@);
                            assert(jv(out@[k].value) == jv(members@[i as int].value));
                        }
                    }
                    assert(jv_members(out@) =~= jv_members(members@.take(i as int + 1)));
                }
                i = i + 1;
            }
            proof {
                assert(members@.take(n as int) =~= members@);
            }
            Json::Obj(out)
        },
    }
}

} // verus!
