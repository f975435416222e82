//! The byte-level wire grammar of the token payload.
//!
//! A payload travels as a compact JSON object with the six fields of the
//! descriptor in a fixed order: `destination` (string), `query_params`,
//! `request_headers`, `response_headers` (each a string-to-string object or
//! `null`), `exp` (decimal integer or `null`) and `ip` (string or `null`).
//! Strings escape `"`, `\` and control bytes as `\u00XX`; all other bytes
//! pass through verbatim. [`serialize_payload`] emits this form and
//! [`parse_payload`] accepts exactly it; parsing what was serialized gives
//! the original record back.

use vstd::prelude::*;

verus! {

pub const QUOTE: u8 = 0x22;
pub const BACKSLASH: u8 = 0x5c;
pub const LBRACE: u8 = 0x7b;
pub const RBRACE: u8 = 0x7d;
pub const COLON: u8 = 0x3a;
pub const COMMA: u8 = 0x2c;

/// The mathematical form of a payload record: every text is a byte string.
pub struct PayloadView {
    pub destination: Seq<u8>,
    pub query_params: Option<Seq<(Seq<u8>, Seq<u8>)>>,
    pub request_headers: Option<Seq<(Seq<u8>, Seq<u8>)>>,
    pub response_headers: Option<Seq<(Seq<u8>, Seq<u8>)>>,
    pub exp: Option<u64>,
    pub ip: Option<Seq<u8>>,
}

/// The executable payload record between the JSON layer and the cipher layer.
pub struct JsonPayload {
    pub destination: Vec<u8>,
    pub query_params: Option<Vec<(Vec<u8>, Vec<u8>)>>,
    pub request_headers: Option<Vec<(Vec<u8>, Vec<u8>)>>,
    pub response_headers: Option<Vec<(Vec<u8>, Vec<u8>)>>,
    pub exp: Option<u64>,
    pub ip: Option<Vec<u8>>,
}

pub open spec fn view_pairs(v: Seq<(Vec<u8>, Vec<u8>)>) -> Seq<(Seq<u8>, Seq<u8>)> {
    Seq::new(v.len(), |i: int| (v[i].0@, v[i].1@))
}

pub open spec fn view_opt_pairs(v: Option<Vec<(Vec<u8>, Vec<u8>)>>) -> Option<
    Seq<(Seq<u8>, Seq<u8>)>,
> {
    match v {
        Option::Some(p) => Option::Some(view_pairs(p@)),
        Option::None => Option::None,
    }
}

pub open spec fn view_opt_bytes(v: Option<Vec<u8>>) -> Option<Seq<u8>> {
    match v {
        Option::Some(b) => Option::Some(b@),
        Option::None => Option::None,
    }
}

impl View for JsonPayload {
    type V = PayloadView;

    open spec fn view(&self) -> PayloadView {
        PayloadView {
            destination: self.destination@,
            query_params: view_opt_pairs(self.query_params),
            request_headers: view_opt_pairs(self.request_headers),
            response_headers: view_opt_pairs(self.response_headers),
            exp: self.exp,
            ip: view_opt_bytes(self.ip),
        }
    }
}

// ---------------------------------------------------------------------------
// Serialization, specification side.
// ---------------------------------------------------------------------------
/// The lower-case hex digit for a value below 16.
pub open spec fn spec_hex_digit(n: u8) -> u8
    recommends
        n < 16,
{
    if n < 10 {
        (0x30 + n) as u8
    } else {
        (0x61 + (n - 10)) as u8
    }
}

/// How one byte of a string is written: `"` and `\` take a backslash escape,
/// control bytes become `\u00XX`, everything else stands as itself.
pub open spec fn spec_escape_byte(b: u8) -> Seq<u8> {
    if b == QUOTE {
        seq![BACKSLASH, QUOTE]
    } else if b == BACKSLASH {
        seq![BACKSLASH, BACKSLASH]
    } else if b < 0x20 {
        seq![BACKSLASH, 0x75, 0x30, 0x30, spec_hex_digit(b / 16), spec_hex_digit(b % 16)]
    } else {
        seq![b]
    }
}

pub open spec fn spec_escape(s: Seq<u8>) -> Seq<u8>
    decreases s.len(),
{
    if s.len() == 0 {
        Seq::empty()
    } else {
        spec_escape_byte(s[0]) + spec_escape(s.skip(1))
    }
}

pub proof fn lemma_escape_concat(a: Seq<u8>, b: Seq<u8>)
    ensures
        spec_escape(a + b) == spec_escape(a) + spec_escape(b),
    decreases a.len(),
{
    if a.len() == 0 {
        assert(a + b =~= b);
        assert(spec_escape(a) + spec_escape(b) =~= spec_escape(b));
    } else {
        assert((a + b).skip(1) =~= a.skip(1) + b);
        lemma_escape_concat(a.skip(1), b);
        assert(spec_escape(a + b) =~= spec_escape(a) + spec_escape(b));
    }
}

pub open spec fn spec_quoted(s: Seq<u8>) -> Seq<u8> {
    seq![QUOTE] + spec_escape(s) + seq![QUOTE]
}

/// The canonical decimal digits of `n`, without leading zeros.
pub open spec fn spec_u64_digits(n: u64) -> Seq<u8>
    decreases n,
{
    if n < 10 {
        seq![(0x30 + n) as u8]
    } else {
        spec_u64_digits(n / 10) + seq![(0x30 + n % 10) as u8]
    }
}

pub open spec fn spec_null() -> Seq<u8> {
    seq![0x6eu8, 0x75, 0x6c, 0x6c]
}

pub open spec fn spec_member(k: Seq<u8>, v: Seq<u8>) -> Seq<u8> {
    spec_quoted(k) + seq![COLON] + spec_quoted(v)
}

pub open spec fn spec_members(ps: Seq<(Seq<u8>, Seq<u8>)>) -> Seq<u8>
    decreases ps.len(),
{
    if ps.len() == 0 {
        Seq::empty()
    } else if ps.len() == 1 {
        spec_member(ps[0].0, ps[0].1)
    } else {
        spec_member(ps[0].0, ps[0].1) + seq![COMMA] + spec_members(ps.skip(1))
    }
}

pub open spec fn spec_obj(ps: Seq<(Seq<u8>, Seq<u8>)>) -> Seq<u8> {
    seq![LBRACE] + spec_members(ps) + seq![RBRACE]
}

pub open spec fn spec_opt_obj(o: Option<Seq<(Seq<u8>, Seq<u8>)>>) -> Seq<u8> {
    match o {
        Option::Some(ps) => spec_obj(ps),
        Option::None => spec_null(),
    }
}

pub open spec fn spec_opt_u64(o: Option<u64>) -> Seq<u8> {
    match o {
        Option::Some(n) => spec_u64_digits(n),
        Option::None => spec_null(),
    }
}

pub open spec fn spec_opt_quoted(o: Option<Seq<u8>>) -> Seq<u8> {
    match o {
        Option::Some(s) => spec_quoted(s),
        Option::None => spec_null(),
    }
}

/// `"destination":` — the field keys are fixed byte strings.
pub open spec fn spec_key_destination() -> Seq<u8> {
    seq![QUOTE, 0x64u8, 0x65, 0x73, 0x74, 0x69, 0x6e, 0x61, 0x74, 0x69, 0x6f, 0x6e, QUOTE, COLON]
}

/// `,"query_params":`
pub open spec fn spec_key_query_params() -> Seq<u8> {
    seq![COMMA, QUOTE, 0x71u8, 0x75, 0x65, 0x72, 0x79, 0x5f, 0x70, 0x61, 0x72, 0x61, 0x6d, 0x73, QUOTE, COLON]
}

/// `,"request_headers":`
pub open spec fn spec_key_request_headers() -> Seq<u8> {
    seq![COMMA, QUOTE, 0x72u8, 0x65, 0x71, 0x75, 0x65, 0x73, 0x74, 0x5f, 0x68, 0x65, 0x61, 0x64, 0x65, 0x72, 0x73, QUOTE, COLON]
}

/// `,"response_headers":`
pub open spec fn spec_key_response_headers() -> Seq<u8> {
    seq![COMMA, QUOTE, 0x72u8, 0x65, 0x73, 0x70, 0x6f, 0x6e, 0x73, 0x65, 0x5f, 0x68, 0x65, 0x61, 0x64, 0x65, 0x72, 0x73, QUOTE, COLON]
}

/// `,"exp":`
pub open spec fn spec_key_exp() -> Seq<u8> {
    seq![COMMA, QUOTE, 0x65u8, 0x78, 0x70, QUOTE, COLON]
}

/// `,"ip":`
pub open spec fn spec_key_ip() -> Seq<u8> {
    seq![COMMA, QUOTE, 0x69u8, 0x70, QUOTE, COLON]
}

/// The full serialized form of a payload record.
pub open spec fn spec_payload_json(p: PayloadView) -> Seq<u8> {
    seq![LBRACE] + spec_key_destination() + spec_quoted(p.destination) + spec_key_query_params()
        + spec_opt_obj(p.query_params) + spec_key_request_headers() + spec_opt_obj(
        p.request_headers,
    ) + spec_key_response_headers() + spec_opt_obj(p.response_headers) + spec_key_exp()
        + spec_opt_u64(p.exp) + spec_key_ip() + spec_opt_quoted(p.ip) + seq![RBRACE]
}

// ---------------------------------------------------------------------------
// Serialization, executable side.
// ---------------------------------------------------------------------------
/// The lower-case hex digit for a value below 16.
fn hex_digit(n: u8) -> (d: u8)
    requires
        n < 16,
    ensures
        d == spec_hex_digit(n),
{
    if n < 10 {
        0x30 + n
    } else {
        0x61 + (n - 10)
    }
}

fn push_escaped(out: &mut Vec<u8>, s: &[u8])
    ensures
        final(out)@ == old(out)@ + spec_escape(s@),
{
    let ghost orig = out@;
    let mut i: usize = 0;
    while i < s.len()
        invariant
            i <= s@.len(),
            out@ == orig + spec_escape(s@.take(i as int)),
        decreases s@.len() - i,
    {
        let b = s[i];
        if b == QUOTE {
            out.push(BACKSLASH);
            out.push(QUOTE);
        } else if b == BACKSLASH {
            out.push(BACKSLASH);
            out.push(BACKSLASH);
        } else if b < 0x20 {
            out.push(BACKSLASH);
            out.push(0x75);
            out.push(0x30);
            out.push(0x30);
            out.push(hex_digit(b / 16));
            out.push(hex_digit(b % 16));
        } else {
            out.push(b);
        }
        proof {
            assert(s@.take(i + 1) =~= s@.take(i as int) + seq![s@[i as int]]);
            lemma_escape_concat(s@.take(i as int), seq![s@[i as int]]);
            assert(seq![s@[i as int]].skip(1) =~= Seq::<u8>::empty());
            assert(spec_escape(seq![s@[i as int]]) =~= spec_escape_byte(s@[i as int])
                + spec_escape(Seq::<u8>::empty()));
            assert(spec_escape(seq![s@[i as int]]) =~= spec_escape_byte(s@[i as int]));
            assert(out@ =~= orig + spec_escape(s@.take(i + 1)));
        }
        i = i + 1;
    }
    proof {
        assert(s@.take(s@.len() as int) =~= s@);
    }
}

fn push_quoted(out: &mut Vec<u8>, s: &[u8])
    ensures
        final(out)@ == old(out)@ + spec_quoted(s@),
{
    out.push(QUOTE);
    push_escaped(out, s);
    out.push(QUOTE);
    proof {
        assert(out@ =~= old(out)@ + spec_quoted(s@));
    }
}

fn push_u64(out: &mut Vec<u8>, n: u64)
    ensures
        final(out)@ == old(out)@ + spec_u64_digits(n),
    decreases n,
{
    if n < 10 {
        out.push(0x30 + (n as u8));
        proof {
            assert(out@ =~= old(out)@ + spec_u64_digits(n));
        }
    } else {
        push_u64(out, n / 10);
        out.push(0x30 + ((n % 10) as u8));
        proof {
            assert(out@ =~= old(out)@ + spec_u64_digits(n));
        }
    }
}

fn push_null(out: &mut Vec<u8>)
    ensures
        final(out)@ == old(out)@ + spec_null(),
{
    out.push(0x6e);
    out.push(0x75);
    out.push(0x6c);
    out.push(0x6c);
    proof {
        assert(out@ =~= old(out)@ + spec_null());
    }
}

fn push_obj(out: &mut Vec<u8>, ps: &Vec<(Vec<u8>, Vec<u8>)>)
    ensures
        final(out)@ == old(out)@ + spec_obj(view_pairs(ps@)),
{
    let ghost orig = out@;
    out.push(LBRACE);
    let mut i: usize = 0;
    while i < ps.len()
        invariant
            i <= ps@.len(),
            out@ == orig + seq![LBRACE] + spec_members(view_pairs(ps@).take(i as int)),
        decreases ps@.len() - i,
    {
        if i > 0 {
            out.push(COMMA);
        }
        push_quoted(out, ps[i].0.as_slice());
        out.push(COLON);
        push_quoted(out, ps[i].1.as_slice());
        proof {
            let pv = view_pairs(ps@);
            assert(pv[i as int] == (ps@[i as int].0@, ps@[i as int].1@));
            lemma_members_snoc(pv, i as int);
            assert(out@ =~= orig + seq![LBRACE] + spec_members(pv.take(i + 1)));
        }
        i = i + 1;
    }
    out.push(RBRACE);
    proof {
        assert(view_pairs(ps@).take(ps@.len() as int) =~= view_pairs(ps@));
        assert(out@ =~= orig + spec_obj(view_pairs(ps@)));
    }
}

/// Appending one more member extends the comma-joined member list on the right.
proof fn lemma_members_snoc(ps: Seq<(Seq<u8>, Seq<u8>)>, i: int)
    requires
        0 <= i < ps.len(),
    ensures
        i == 0 ==> spec_members(ps.take(i + 1)) == spec_member(ps[i].0, ps[i].1),
        i > 0 ==> spec_members(ps.take(i + 1)) == spec_members(ps.take(i)) + seq![COMMA]
            + spec_member(ps[i].0, ps[i].1),
    decreases i,
{
    if i == 0 {
        assert(ps.take(1).len() == 1);
        assert(ps.take(1)[0] == ps[0]);
    } else {
        lemma_members_snoc(ps.skip(1), i - 1);
        assert(ps.take(i + 1).skip(1) =~= ps.skip(1).take(i));
        assert(ps.take(i).skip(1) =~= ps.skip(1).take(i - 1));
        assert(ps.take(i + 1)[0] == ps[0]);
        assert(ps.take(i)[0] == ps[0]);
        assert(ps.skip(1)[i - 1] == ps[i]);
        if i == 1 {
            assert(spec_members(ps.take(2)) == spec_member(ps[0].0, ps[0].1) + seq![COMMA]
                + spec_members(ps.take(2).skip(1)));
            assert(spec_members(ps.take(1)) == spec_member(ps[0].0, ps[0].1));
        } else {
            assert(spec_members(ps.take(i + 1)) == spec_member(ps[0].0, ps[0].1) + seq![COMMA]
                + spec_members(ps.take(i + 1).skip(1)));
            assert(spec_members(ps.take(i)) == spec_member(ps[0].0, ps[0].1) + seq![COMMA]
                + spec_members(ps.take(i).skip(1)));
            assert((spec_member(ps[0].0, ps[0].1) + seq![COMMA] + (spec_members(ps.skip(1).take(i - 1))
                + seq![COMMA] + spec_member(ps.skip(1)[i - 1].0, ps.skip(1)[i - 1].1))) =~= (
            spec_member(ps[0].0, ps[0].1) + seq![COMMA] + spec_members(ps.skip(1).take(i - 1)))
                + seq![COMMA] + spec_member(ps[i].0, ps[i].1));
        }
    }
}

fn push_opt_obj(out: &mut Vec<u8>, o: &Option<Vec<(Vec<u8>, Vec<u8>)>>)
    ensures
        final(out)@ == old(out)@ + spec_opt_obj(view_opt_pairs(*o)),
{
    match o {
        Option::Some(ps) => push_obj(out, ps),
        Option::None => push_null(out),
    }
}

/// Serializes a payload record to its JSON wire form.
pub fn serialize_payload(p: &JsonPayload) -> (r: Vec<u8>)
    ensures
        r@ == spec_payload_json(p@),
{
    let mut out: Vec<u8> = Vec::new();
    out.push(LBRACE);
    push_key_destination(&mut out);
    push_quoted(&mut out, p.destination.as_slice());
    push_key_query_params(&mut out);
    push_opt_obj(&mut out, &p.query_params);
    push_key_request_headers(&mut out);
    push_opt_obj(&mut out, &p.request_headers);
    push_key_response_headers(&mut out);
    push_opt_obj(&mut out, &p.response_headers);
    push_key_exp(&mut out);
    match &p.exp {
        Option::Some(n) => push_u64(&mut out, *n),
        Option::None => push_null(&mut out),
    }
    push_key_ip(&mut out);
    match &p.ip {
        Option::Some(s) => push_quoted(&mut out, s.as_slice()),
        Option::None => push_null(&mut out),
    }
    out.push(RBRACE);
    proof {
        assert(out@ =~= spec_payload_json(p@));
    }
    out
}

fn push_key_destination(out: &mut Vec<u8>)
    ensures
        final(out)@ == old(out)@ + spec_key_destination(),
{
    let lit: Vec<u8> = vec![QUOTE, 0x64u8, 0x65, 0x73, 0x74, 0x69, 0x6e, 0x61, 0x74, 0x69, 0x6f, 0x6e, QUOTE, COLON];
    assert(lit@ =~= spec_key_destination());
    out.extend_from_slice(lit.as_slice());
}

fn push_key_query_params(out: &mut Vec<u8>)
    ensures
        final(out)@ == old(out)@ + spec_key_query_params(),
{
    let lit: Vec<u8> = vec![COMMA, QUOTE, 0x71u8, 0x75, 0x65, 0x72, 0x79, 0x5f, 0x70, 0x61, 0x72, 0x61, 0x6d, 0x73, QUOTE, COLON];
    assert(lit@ =~= spec_key_query_params());
    out.extend_from_slice(lit.as_slice());
}

fn push_key_request_headers(out: &mut Vec<u8>)
    ensures
        final(out)@ == old(out)@ + spec_key_request_headers(),
{
    let lit: Vec<u8> = vec![COMMA, QUOTE, 0x72u8, 0x65, 0x71, 0x75, 0x65, 0x73, 0x74, 0x5f, 0x68, 0x65, 0x61, 0x64, 0x65, 0x72, 0x73, QUOTE, COLON];
    assert(lit@ =~= spec_key_request_headers());
    out.extend_from_slice(lit.as_slice());
}

fn push_key_response_headers(out: &mut Vec<u8>)
    ensures
        final(out)@ == old(out)@ + spec_key_response_headers(),
{
    let lit: Vec<u8> = vec![COMMA, QUOTE, 0x72u8, 0x65, 0x73, 0x70, 0x6f, 0x6e, 0x73, 0x65, 0x5f, 0x68, 0x65, 0x61, 0x64, 0x65, 0x72, 0x73, QUOTE, COLON];
    assert(lit@ =~= spec_key_response_headers());
    out.extend_from_slice(lit.as_slice());
}

fn push_key_exp(out: &mut Vec<u8>)
    ensures
        final(out)@ == old(out)@ + spec_key_exp(),
{
    let lit: Vec<u8> = vec![COMMA, QUOTE, 0x65u8, 0x78, 0x70, QUOTE, COLON];
    assert(lit@ =~= spec_key_exp());
    out.extend_from_slice(lit.as_slice());
}

fn push_key_ip(out: &mut Vec<u8>)
    ensures
        final(out)@ == old(out)@ + spec_key_ip(),
{
    let lit: Vec<u8> = vec![COMMA, QUOTE, 0x69u8, 0x70, QUOTE, COLON];
    assert(lit@ =~= spec_key_ip());
    out.extend_from_slice(lit.as_slice());
}


// ---------------------------------------------------------------------------
// Parsing, specification side.
// ---------------------------------------------------------------------------
pub open spec fn is_digit(b: u8) -> bool {
    0x30 <= b <= 0x39
}

pub open spec fn is_hex(b: u8) -> bool {
    is_digit(b) || (0x61 <= b <= 0x66) || (0x41 <= b <= 0x46)
}

pub open spec fn spec_hex_val(b: u8) -> u8
    recommends
        is_hex(b),
{
    if is_digit(b) {
        (b - 0x30) as u8
    } else if 0x61 <= b <= 0x66 {
        (b - 0x61 + 10) as u8
    } else {
        (b - 0x41 + 10) as u8
    }
}

pub open spec fn spec_hex4(a: u8, b: u8, c: u8, d: u8) -> int {
    spec_hex_val(a) * 0x1000 + spec_hex_val(b) * 0x100 + spec_hex_val(c) * 16 + spec_hex_val(d)
}

/// The byte denoted by a single-character escape, if the character is one.
pub open spec fn spec_short_escape(b: u8) -> Option<u8> {
    if b == QUOTE {
        Option::Some(QUOTE)
    } else if b == BACKSLASH {
        Option::Some(BACKSLASH)
    } else if b == 0x2f {
        Option::Some(0x2fu8)
    } else if b == 0x62 {
        Option::Some(0x08u8)
    } else if b == 0x66 {
        Option::Some(0x0cu8)
    } else if b == 0x6e {
        Option::Some(0x0au8)
    } else if b == 0x72 {
        Option::Some(0x0du8)
    } else if b == 0x74 {
        Option::Some(0x09u8)
    } else {
        Option::None
    }
}

/// Parses the body of a string after its opening quote, up to and including
/// the closing quote; yields the unescaped content and the remaining input.
pub open spec fn spec_parse_str_rest(s: Seq<u8>) -> Option<(Seq<u8>, Seq<u8>)>
    decreases s.len(),
{
    if s.len() == 0 {
        Option::None
    } else if s[0] == QUOTE {
        Option::Some((Seq::empty(), s.skip(1)))
    } else if s[0] == BACKSLASH {
        if s.len() >= 2 && spec_short_escape(s[1]) is Some {
            match spec_parse_str_rest(s.skip(2)) {
                Option::None => Option::None,
                Option::Some((v, r)) => Option::Some((seq![spec_short_escape(s[1])->Some_0] + v, r)),
            }
        } else if s.len() >= 6 && s[1] == 0x75 && is_hex(s[2]) && is_hex(s[3]) && is_hex(s[4])
            && is_hex(s[5]) && spec_hex4(s[2], s[3], s[4], s[5]) < 0x20 {
            match spec_parse_str_rest(s.skip(6)) {
                Option::None => Option::None,
                Option::Some((v, r)) => Option::Some(
                    (seq![spec_hex4(s[2], s[3], s[4], s[5]) as u8] + v, r),
                ),
            }
        } else {
            Option::None
        }
    } else if s[0] < 0x20 {
        Option::None
    } else {
        match spec_parse_str_rest(s.skip(1)) {
            Option::None => Option::None,
            Option::Some((v, r)) => Option::Some((seq![s[0]] + v, r)),
        }
    }
}

/// Parses a quoted string from the head of the input.
pub open spec fn spec_parse_string(s: Seq<u8>) -> Option<(Seq<u8>, Seq<u8>)> {
    if s.len() > 0 && s[0] == QUOTE {
        spec_parse_str_rest(s.skip(1))
    } else {
        Option::None
    }
}

pub proof fn lemma_parse_str_rest_consumes(s: Seq<u8>)
    ensures
        spec_parse_str_rest(s) matches Option::Some(p) ==> p.1.len() < s.len(),
    decreases s.len(),
{
    if s.len() == 0 {
    } else if s[0] == QUOTE {
    } else if s[0] == BACKSLASH {
        if s.len() >= 2 && spec_short_escape(s[1]) is Some {
            lemma_parse_str_rest_consumes(s.skip(2));
        } else if s.len() >= 6 && s[1] == 0x75 && is_hex(s[2]) && is_hex(s[3]) && is_hex(s[4])
            && is_hex(s[5]) && spec_hex4(s[2], s[3], s[4], s[5]) < 0x20 {
            lemma_parse_str_rest_consumes(s.skip(6));
        }
    } else {
        lemma_parse_str_rest_consumes(s.skip(1));
    }
}

pub proof fn lemma_parse_string_consumes(s: Seq<u8>)
    ensures
        spec_parse_string(s) matches Option::Some(p) ==> p.1.len() + 2 <= s.len(),
{
    if s.len() > 0 && s[0] == QUOTE {
        lemma_parse_str_rest_consumes(s.skip(1));
    }
}

/// Parses `"key":"value"` members up to and including the closing brace.
pub open spec fn spec_parse_members(s: Seq<u8>) -> Option<
    (Seq<(Seq<u8>, Seq<u8>)>, Seq<u8>),
>
    decreases s.len(),
    via spec_parse_members_dec
{
    match spec_parse_string(s) {
        Option::None => Option::None,
        Option::Some((k, r1)) => if r1.len() > 0 && r1[0] == COLON {
            match spec_parse_string(r1.skip(1)) {
                Option::None => Option::None,
                Option::Some((v, r2)) => if r2.len() > 0 && r2[0] == COMMA {
                    match spec_parse_members(r2.skip(1)) {
                        Option::None => Option::None,
                        Option::Some((ps, r3)) => Option::Some((seq![(k, v)] + ps, r3)),
                    }
                } else if r2.len() > 0 && r2[0] == RBRACE {
                    Option::Some((seq![(k, v)], r2.skip(1)))
                } else {
                    Option::None
                },
            }
        } else {
            Option::None
        },
    }
}

#[via_fn]
proof fn spec_parse_members_dec(s: Seq<u8>) {
    lemma_parse_string_consumes(s);
    match spec_parse_string(s) {
        Option::Some((k, r1)) => {
            if r1.len() > 0 && r1[0] == COLON {
                lemma_parse_string_consumes(r1.skip(1));
            }
        },
        Option::None => {},
    }
}

/// Parses an object from the head of the input.
pub open spec fn spec_parse_obj(s: Seq<u8>) -> Option<(Seq<(Seq<u8>, Seq<u8>)>, Seq<u8>)> {
    if s.len() >= 2 && s[0] == LBRACE && s[1] == RBRACE {
        Option::Some((Seq::empty(), s.skip(2)))
    } else if s.len() >= 1 && s[0] == LBRACE {
        spec_parse_members(s.skip(1))
    } else {
        Option::None
    }
}

pub open spec fn spec_starts_with(s: Seq<u8>, p: Seq<u8>) -> bool {
    s.len() >= p.len() && s.take(p.len() as int) == p
}

/// The number of leading decimal digits.
pub open spec fn spec_digits_prefix_len(s: Seq<u8>) -> int
    decreases s.len(),
{
    if s.len() == 0 || !is_digit(s[0]) {
        0
    } else {
        1 + spec_digits_prefix_len(s.skip(1))
    }
}

/// The value of a most-significant-first digit string.
pub open spec fn spec_digits_val(d: Seq<u8>) -> int
    decreases d.len(),
{
    if d.len() == 0 {
        0
    } else {
        spec_digits_val(d.take(d.len() - 1)) * 10 + (d[d.len() - 1] - 0x30)
    }
}

/// Parses a canonical decimal `u64`: at least one digit, no leading zero,
/// value within range.
pub open spec fn spec_parse_u64(s: Seq<u8>) -> Option<(u64, Seq<u8>)> {
    let n = spec_digits_prefix_len(s);
    if n == 0 {
        Option::None
    } else if s[0] == 0x30 && n > 1 {
        Option::None
    } else if spec_digits_val(s.take(n)) > u64::MAX {
        Option::None
    } else {
        Option::Some((spec_digits_val(s.take(n)) as u64, s.skip(n)))
    }
}

pub open spec fn spec_parse_opt_obj(s: Seq<u8>) -> Option<
    (Option<Seq<(Seq<u8>, Seq<u8>)>>, Seq<u8>),
> {
    if spec_starts_with(s, spec_null()) {
        Option::Some((Option::None, s.skip(4)))
    } else {
        match spec_parse_obj(s) {
            Option::None => Option::None,
            Option::Some((ps, r)) => Option::Some((Option::Some(ps), r)),
        }
    }
}

pub open spec fn spec_parse_opt_u64(s: Seq<u8>) -> Option<(Option<u64>, Seq<u8>)> {
    if spec_starts_with(s, spec_null()) {
        Option::Some((Option::None, s.skip(4)))
    } else {
        match spec_parse_u64(s) {
            Option::None => Option::None,
            Option::Some((n, r)) => Option::Some((Option::Some(n), r)),
        }
    }
}

pub open spec fn spec_parse_opt_string(s: Seq<u8>) -> Option<(Option<Seq<u8>>, Seq<u8>)> {
    if spec_starts_with(s, spec_null()) {
        Option::Some((Option::None, s.skip(4)))
    } else {
        match spec_parse_string(s) {
            Option::None => Option::None,
            Option::Some((v, r)) => Option::Some((Option::Some(v), r)),
        }
    }
}

/// The last stage of payload parsing: the `ip` field and the closing brace.
pub open spec fn spec_parse_from_ip(
    dest: Seq<u8>,
    qp: Option<Seq<(Seq<u8>, Seq<u8>)>>,
    reqh: Option<Seq<(Seq<u8>, Seq<u8>)>>,
    resph: Option<Seq<(Seq<u8>, Seq<u8>)>>,
    exp: Option<u64>,
    s: Seq<u8>,
) -> Option<PayloadView> {
    if !spec_starts_with(s, spec_key_ip()) {
        Option::None
    } else {
        match spec_parse_opt_string(s.skip(spec_key_ip().len() as int)) {
            Option::None => Option::None,
            Option::Some((ip, r)) => if r =~= seq![RBRACE] {
                Option::Some(
                    PayloadView {
                        destination: dest,
                        query_params: qp,
                        request_headers: reqh,
                        response_headers: resph,
                        exp: exp,
                        ip: ip,
                    },
                )
            } else {
                Option::None
            },
        }
    }
}

/// Payload parsing from the `exp` field on.
pub open spec fn spec_parse_from_exp(
    dest: Seq<u8>,
    qp: Option<Seq<(Seq<u8>, Seq<u8>)>>,
    reqh: Option<Seq<(Seq<u8>, Seq<u8>)>>,
    resph: Option<Seq<(Seq<u8>, Seq<u8>)>>,
    s: Seq<u8>,
) -> Option<PayloadView> {
    if !spec_starts_with(s, spec_key_exp()) {
        Option::None
    } else {
        match spec_parse_opt_u64(s.skip(spec_key_exp().len() as int)) {
            Option::None => Option::None,
            Option::Some((exp, r)) => spec_parse_from_ip(dest, qp, reqh, resph, exp, r),
        }
    }
}

/// Payload parsing from the `response_headers` field on.
pub open spec fn spec_parse_from_resph(
    dest: Seq<u8>,
    qp: Option<Seq<(Seq<u8>, Seq<u8>)>>,
    reqh: Option<Seq<(Seq<u8>, Seq<u8>)>>,
    s: Seq<u8>,
) -> Option<PayloadView> {
    if !spec_starts_with(s, spec_key_response_headers()) {
        Option::None
    } else {
        match spec_parse_opt_obj(s.skip(spec_key_response_headers().len() as int)) {
            Option::None => Option::None,
            Option::Some((resph, r)) => spec_parse_from_exp(dest, qp, reqh, resph, r),
        }
    }
}

/// Payload parsing from the `request_headers` field on.
pub open spec fn spec_parse_from_reqh(
    dest: Seq<u8>,
    qp: Option<Seq<(Seq<u8>, Seq<u8>)>>,
    s: Seq<u8>,
) -> Option<PayloadView> {
    if !spec_starts_with(s, spec_key_request_headers()) {
        Option::None
    } else {
        match spec_parse_opt_obj(s.skip(spec_key_request_headers().len() as int)) {
            Option::None => Option::None,
            Option::Some((reqh, r)) => spec_parse_from_resph(dest, qp, reqh, r),
        }
    }
}

/// Payload parsing from the `query_params` field on.
pub open spec fn spec_parse_from_qp(dest: Seq<u8>, s: Seq<u8>) -> Option<PayloadView> {
    if !spec_starts_with(s, spec_key_query_params()) {
        Option::None
    } else {
        match spec_parse_opt_obj(s.skip(spec_key_query_params().len() as int)) {
            Option::None => Option::None,
            Option::Some((qp, r)) => spec_parse_from_reqh(dest, qp, r),
        }
    }
}

/// Parses a whole payload object; the input must be consumed exactly.
pub open spec fn spec_parse_payload(s: Seq<u8>) -> Option<PayloadView> {
    if !spec_starts_with(s, seq![LBRACE] + spec_key_destination()) {
        Option::None
    } else {
        match spec_parse_string(s.skip(1 + spec_key_destination().len() as int)) {
            Option::None => Option::None,
            Option::Some((dest, r)) => spec_parse_from_qp(dest, r),
        }
    }
}

// ---------------------------------------------------------------------------
// Round trip: parsing what was serialized yields the original value.
// ---------------------------------------------------------------------------
pub proof fn lemma_hex_digit_val(x: u8)
    requires
        x < 16,
    ensures
        is_hex(spec_hex_digit(x)),
        spec_hex_val(spec_hex_digit(x)) == x,
{
}

/// A serialized string body parses back to the original bytes, leaving the
/// suffix untouched.
pub proof fn lemma_parse_escaped(v: Seq<u8>, rest: Seq<u8>)
    ensures
        spec_parse_str_rest(spec_escape(v) + seq![QUOTE] + rest) == Option::Some((v, rest)),
    decreases v.len(),
{
    let s = spec_escape(v) + seq![QUOTE] + rest;
    if v.len() == 0 {
        assert(spec_escape(v) =~= Seq::<u8>::empty());
        assert(s =~= seq![QUOTE] + rest);
        assert(s[0] == QUOTE);
        assert(s.skip(1) =~= rest);
    } else {
        let b = v[0];
        let v1 = v.skip(1);
        lemma_parse_escaped(v1, rest);
        let s1 = spec_escape(v1) + seq![QUOTE] + rest;
        assert(spec_escape(v) == spec_escape_byte(b) + spec_escape(v1));
        if b == QUOTE {
            assert(s =~= seq![BACKSLASH, QUOTE] + s1);
            assert(s[0] == BACKSLASH && s[1] == QUOTE);
            assert(spec_short_escape(s[1]) == Option::Some(QUOTE));
            assert(s.skip(2) =~= s1);
            assert(seq![QUOTE] + v1 =~= v);
        } else if b == BACKSLASH {
            assert(s =~= seq![BACKSLASH, BACKSLASH] + s1);
            assert(s[0] == BACKSLASH && s[1] == BACKSLASH);
            assert(spec_short_escape(s[1]) == Option::Some(BACKSLASH));
            assert(s.skip(2) =~= s1);
            assert(seq![BACKSLASH] + v1 =~= v);
        } else if b < 0x20 {
            let h1 = spec_hex_digit(b / 16);
            let h2 = spec_hex_digit(b % 16);
            assert(s =~= seq![BACKSLASH, 0x75u8, 0x30, 0x30, h1, h2] + s1);
            assert(s[0] == BACKSLASH && s[1] == 0x75 && s[2] == 0x30 && s[3] == 0x30 && s[4] == h1
                && s[5] == h2);
            assert(spec_short_escape(0x75u8) is None);
            lemma_hex_digit_val(b / 16);
            lemma_hex_digit_val(b % 16);
            assert(is_hex(0x30u8) && spec_hex_val(0x30u8) == 0);
            assert(spec_hex4(s[2], s[3], s[4], s[5]) == (b / 16) * 16 + b % 16);
            assert((b / 16) * 16 + b % 16 == b);
            assert(s.skip(6) =~= s1);
            assert(seq![b] + v1 =~= v);
            assert(spec_parse_str_rest(s) == Option::Some((v, rest)));
        } else {
            assert(s[0] == b);
            assert(s.skip(1) =~= s1);
            assert(seq![b] + v1 =~= v);
        }
    }
}

/// A serialized quoted string parses back to the original bytes.
pub proof fn lemma_parse_quoted(v: Seq<u8>, rest: Seq<u8>)
    ensures
        spec_parse_string(spec_quoted(v) + rest) == Option::Some((v, rest)),
{
    let s = spec_quoted(v) + rest;
    assert(s[0] == QUOTE);
    assert(s.skip(1) =~= spec_escape(v) + seq![QUOTE] + rest);
    lemma_parse_escaped(v, rest);
}

pub proof fn lemma_u64_digits_shape(n: u64)
    ensures
        spec_u64_digits(n).len() >= 1,
        forall|i: int|
            0 <= i < spec_u64_digits(n).len() ==> is_digit(#[trigger] spec_u64_digits(n)[i]),
        n > 0 ==> spec_u64_digits(n)[0] != 0x30,
        n == 0 ==> spec_u64_digits(n) == seq![0x30u8],
    decreases n,
{
    if n < 10 {
        assert(spec_u64_digits(n) == seq![(0x30 + n) as u8]);
    } else {
        lemma_u64_digits_shape(n / 10);
        let d = spec_u64_digits(n / 10);
        assert(spec_u64_digits(n) == d + seq![(0x30 + n % 10) as u8]);
        assert(spec_u64_digits(n)[0] == d[0]);
    }
}

/// Leading digits of a digit string followed by a non-digit are exactly the
/// digit string.
pub proof fn lemma_digits_prefix(d: Seq<u8>, rest: Seq<u8>)
    requires
        forall|i: int| 0 <= i < d.len() ==> is_digit(#[trigger] d[i]),
        rest.len() == 0 || !is_digit(rest[0]),
    ensures
        spec_digits_prefix_len(d + rest) == d.len(),
    decreases d.len(),
{
    let s = d + rest;
    if d.len() == 0 {
        assert(s =~= rest);
    } else {
        assert(is_digit(s[0]));
        lemma_digits_prefix(d.skip(1), rest);
        assert(s.skip(1) =~= d.skip(1) + rest);
    }
}

pub proof fn lemma_digits_val_of(n: u64)
    ensures
        spec_digits_val(spec_u64_digits(n)) == n,
    decreases n,
{
    let d = spec_u64_digits(n);
    if n < 10 {
        assert(d == seq![(0x30 + n) as u8]);
        assert(d[0] == 0x30 + n);
        assert(d.take(0) =~= Seq::<u8>::empty());
        assert(spec_digits_val(d.take(0)) == 0);
        assert(spec_digits_val(d) == n);
    } else {
        lemma_digits_val_of(n / 10);
        let dh = spec_u64_digits(n / 10);
        assert(d == dh + seq![(0x30 + n % 10) as u8]);
        assert(d.take(d.len() - 1) =~= dh);
        assert(d[d.len() - 1] == (0x30 + n % 10) as u8);
        assert(spec_digits_val(d) == spec_digits_val(dh) * 10 + n % 10);
        assert((n / 10) * 10 + n % 10 == n);
    }
}

/// A serialized decimal parses back to the original number when what follows
/// is not a digit.
pub proof fn lemma_parse_u64_digits(n: u64, rest: Seq<u8>)
    requires
        rest.len() == 0 || !is_digit(rest[0]),
    ensures
        spec_parse_u64(spec_u64_digits(n) + rest) == Option::Some((n, rest)),
{
    let d = spec_u64_digits(n);
    let s = d + rest;
    lemma_u64_digits_shape(n);
    lemma_digits_prefix(d, rest);
    lemma_digits_val_of(n);
    assert(spec_digits_prefix_len(s) == d.len());
    assert(s.take(d.len() as int) =~= d);
    assert(s.skip(d.len() as int) =~= rest);
    assert(s[0] == d[0]);
    if n == 0 {
        assert(d.len() == 1);
    } else {
        assert(s[0] != 0x30);
    }
}


pub proof fn lemma_members_first_byte(ps: Seq<(Seq<u8>, Seq<u8>)>)
    requires
        ps.len() >= 1,
    ensures
        spec_members(ps).len() >= 1,
        spec_members(ps)[0] == QUOTE,
{
    let m = spec_member(ps[0].0, ps[0].1);
    assert(m[0] == QUOTE);
    if ps.len() == 1 {
    } else {
        assert(spec_members(ps)[0] == m[0]);
    }
}

/// A serialized member list followed by the closing brace parses back to the
/// original pairs.
#[verifier::rlimit(100)]
pub proof fn lemma_parse_members_roundtrip(ps: Seq<(Seq<u8>, Seq<u8>)>, rest: Seq<u8>)
    requires
        ps.len() >= 1,
    ensures
        spec_parse_members(spec_members(ps) + seq![RBRACE] + rest) == Option::Some((ps, rest)),
    decreases ps.len(),
{
    let s = spec_members(ps) + seq![RBRACE] + rest;
    let k = ps[0].0;
    let v = ps[0].1;
    if ps.len() == 1 {
        let tail1 = seq![COLON] + spec_quoted(v) + seq![RBRACE] + rest;
        assert(s =~= spec_quoted(k) + tail1);
        lemma_parse_quoted(k, tail1);
        assert(tail1[0] == COLON);
        let tail2 = spec_quoted(v) + (seq![RBRACE] + rest);
        assert(tail1.skip(1) =~= tail2);
        lemma_parse_quoted(v, seq![RBRACE] + rest);
        let r2 = seq![RBRACE] + rest;
        assert(r2[0] == RBRACE && r2[0] != COMMA);
        assert(r2.skip(1) =~= rest);
        assert(ps[0] == (k, v));
        assert(seq![(k, v)] =~= ps);
    } else {
        let tail1 = seq![COLON] + spec_quoted(v) + seq![COMMA] + spec_members(ps.skip(1))
            + seq![RBRACE] + rest;
        assert(s =~= spec_quoted(k) + tail1);
        lemma_parse_quoted(k, tail1);
        assert(tail1[0] == COLON);
        let r2 = seq![COMMA] + spec_members(ps.skip(1)) + seq![RBRACE] + rest;
        assert(tail1.skip(1) =~= spec_quoted(v) + r2);
        lemma_parse_quoted(v, r2);
        assert(r2[0] == COMMA);
        assert(r2.skip(1) =~= spec_members(ps.skip(1)) + seq![RBRACE] + rest);
        lemma_parse_members_roundtrip(ps.skip(1), rest);
        assert(ps[0] == (k, v));
        assert(seq![(k, v)] + ps.skip(1) =~= ps);
    }
}

/// A serialized object parses back to the original pairs.
pub proof fn lemma_parse_obj_roundtrip(ps: Seq<(Seq<u8>, Seq<u8>)>, rest: Seq<u8>)
    ensures
        spec_parse_obj(spec_obj(ps) + rest) == Option::Some((ps, rest)),
{
    let s = spec_obj(ps) + rest;
    if ps.len() == 0 {
        assert(spec_members(ps) =~= Seq::<u8>::empty());
        assert(s =~= seq![LBRACE, RBRACE] + rest);
        assert(s[0] == LBRACE && s[1] == RBRACE);
        assert(s.skip(2) =~= rest);
    } else {
        lemma_members_first_byte(ps);
        assert(s[0] == LBRACE);
        assert(s[1] == spec_members(ps)[0]);
        assert(s[1] != RBRACE);
        assert(s.skip(1) =~= spec_members(ps) + seq![RBRACE] + rest);
        lemma_parse_members_roundtrip(ps, rest);
    }
}

pub proof fn lemma_parse_opt_obj_roundtrip(o: Option<Seq<(Seq<u8>, Seq<u8>)>>, rest: Seq<u8>)
    ensures
        spec_parse_opt_obj(spec_opt_obj(o) + rest) == Option::Some((o, rest)),
{
    let s = spec_opt_obj(o) + rest;
    match o {
        Option::None => {
            assert(s =~= spec_null() + rest);
            assert(s.take(4) =~= spec_null());
            assert(s.skip(4) =~= rest);
        },
        Option::Some(ps) => {
            assert(s[0] == LBRACE);
            if spec_starts_with(s, spec_null()) {
                assert(s.take(4)[0] == s[0]);
                assert(false);
            }
            lemma_parse_obj_roundtrip(ps, rest);
        },
    }
}

pub proof fn lemma_parse_opt_u64_roundtrip(o: Option<u64>, rest: Seq<u8>)
    requires
        rest.len() == 0 || !is_digit(rest[0]),
    ensures
        spec_parse_opt_u64(spec_opt_u64(o) + rest) == Option::Some((o, rest)),
{
    let s = spec_opt_u64(o) + rest;
    match o {
        Option::None => {
            assert(s =~= spec_null() + rest);
            assert(s.take(4) =~= spec_null());
            assert(s.skip(4) =~= rest);
        },
        Option::Some(n) => {
            lemma_u64_digits_shape(n);
            assert(s[0] == spec_u64_digits(n)[0]);
            assert(is_digit(s[0]));
            if spec_starts_with(s, spec_null()) {
                assert(s.take(4)[0] == s[0]);
                assert(false);
            }
            lemma_parse_u64_digits(n, rest);
        },
    }
}

pub proof fn lemma_parse_opt_string_roundtrip(o: Option<Seq<u8>>, rest: Seq<u8>)
    ensures
        spec_parse_opt_string(spec_opt_quoted(o) + rest) == Option::Some((o, rest)),
{
    let s = spec_opt_quoted(o) + rest;
    match o {
        Option::None => {
            assert(s =~= spec_null() + rest);
            assert(s.take(4) =~= spec_null());
            assert(s.skip(4) =~= rest);
        },
        Option::Some(v) => {
            assert(s[0] == QUOTE);
            if spec_starts_with(s, spec_null()) {
                assert(s.take(4)[0] == s[0]);
                assert(false);
            }
            lemma_parse_quoted(v, rest);
        },
    }
}

pub proof fn lemma_prefix_skip(pre: Seq<u8>, post: Seq<u8>)
    ensures
        spec_starts_with(pre + post, pre),
        (pre + post).skip(pre.len() as int) == post,
{
    assert((pre + post).take(pre.len() as int) =~= pre);
    assert((pre + post).skip(pre.len() as int) =~= post);
}

/// The tail of the serialized payload from the `ip` key on.
pub open spec fn spec_rest_ip(p: PayloadView) -> Seq<u8> {
    spec_key_ip() + spec_opt_quoted(p.ip) + seq![RBRACE]
}

/// The tail of the serialized payload from the `exp` key on.
pub open spec fn spec_rest_exp(p: PayloadView) -> Seq<u8> {
    spec_key_exp() + spec_opt_u64(p.exp) + spec_rest_ip(p)
}

/// The tail of the serialized payload from the `response_headers` key on.
pub open spec fn spec_rest_resph(p: PayloadView) -> Seq<u8> {
    spec_key_response_headers() + spec_opt_obj(p.response_headers) + spec_rest_exp(p)
}

/// The tail of the serialized payload from the `request_headers` key on.
pub open spec fn spec_rest_reqh(p: PayloadView) -> Seq<u8> {
    spec_key_request_headers() + spec_opt_obj(p.request_headers) + spec_rest_resph(p)
}

/// The tail of the serialized payload from the `query_params` key on.
pub open spec fn spec_rest_qp(p: PayloadView) -> Seq<u8> {
    spec_key_query_params() + spec_opt_obj(p.query_params) + spec_rest_reqh(p)
}

/// The serialized payload grouped as head, destination and tail chain.
pub proof fn lemma_payload_shape(p: PayloadView)
    ensures
        spec_payload_json(p) == (seq![LBRACE] + spec_key_destination()) + (spec_quoted(
            p.destination,
        ) + spec_rest_qp(p)),
{
    let a1 = seq![LBRACE];
    let kd = spec_key_destination();
    let d = spec_quoted(p.destination);
    let kq = spec_key_query_params();
    let vq = spec_opt_obj(p.query_params);
    let kr = spec_key_request_headers();
    let vr = spec_opt_obj(p.request_headers);
    let ks = spec_key_response_headers();
    let vs = spec_opt_obj(p.response_headers);
    let ke = spec_key_exp();
    let ve = spec_opt_u64(p.exp);
    let ki = spec_key_ip();
    let vi = spec_opt_quoted(p.ip);
    let rb = seq![RBRACE];
    let x5 = a1 + kd + d + kq + vq + kr + vr + ks + vs + ke + ve;
    let x4 = a1 + kd + d + kq + vq + kr + vr + ks + vs;
    let x3 = a1 + kd + d + kq + vq + kr + vr;
    let x2 = a1 + kd + d + kq + vq;
    let x1 = a1 + kd + d;
    assert(spec_payload_json(p) == x5 + ki + vi + rb);
    assert(x5 + ki + vi + rb =~= x5 + spec_rest_ip(p));
    assert(x5 + spec_rest_ip(p) == x4 + ke + ve + spec_rest_ip(p));
    assert(x4 + ke + ve + spec_rest_ip(p) =~= x4 + spec_rest_exp(p));
    assert(x4 + spec_rest_exp(p) == x3 + ks + vs + spec_rest_exp(p));
    assert(x3 + ks + vs + spec_rest_exp(p) =~= x3 + spec_rest_resph(p));
    assert(x3 + spec_rest_resph(p) == x2 + kr + vr + spec_rest_resph(p));
    assert(x2 + kr + vr + spec_rest_resph(p) =~= x2 + spec_rest_reqh(p));
    assert(x2 + spec_rest_reqh(p) == x1 + kq + vq + spec_rest_reqh(p));
    assert(x1 + kq + vq + spec_rest_reqh(p) =~= x1 + spec_rest_qp(p));
    assert(x1 + spec_rest_qp(p) == (a1 + kd) + d + spec_rest_qp(p));
    assert((a1 + kd) + d + spec_rest_qp(p) =~= (a1 + kd) + (d + spec_rest_qp(p)));
}

proof fn lemma_from_ip_roundtrip(p: PayloadView)
    ensures
        spec_parse_from_ip(
            p.destination,
            p.query_params,
            p.request_headers,
            p.response_headers,
            p.exp,
            spec_rest_ip(p),
        ) == Option::Some(p),
{
    assert(spec_rest_ip(p) =~= spec_key_ip() + (spec_opt_quoted(p.ip) + seq![RBRACE]));
    lemma_prefix_skip(spec_key_ip(), spec_opt_quoted(p.ip) + seq![RBRACE]);
    lemma_parse_opt_string_roundtrip(p.ip, seq![RBRACE]);
    assert(PayloadView {
        destination: p.destination,
        query_params: p.query_params,
        request_headers: p.request_headers,
        response_headers: p.response_headers,
        exp: p.exp,
        ip: p.ip,
    } == p);
}

proof fn lemma_from_exp_roundtrip(p: PayloadView)
    ensures
        spec_parse_from_exp(
            p.destination,
            p.query_params,
            p.request_headers,
            p.response_headers,
            spec_rest_exp(p),
        ) == Option::Some(p),
{
    assert(spec_rest_exp(p) =~= spec_key_exp() + (spec_opt_u64(p.exp) + spec_rest_ip(p)));
    lemma_prefix_skip(spec_key_exp(), spec_opt_u64(p.exp) + spec_rest_ip(p));
    assert(spec_rest_ip(p)[0] == COMMA);
    lemma_parse_opt_u64_roundtrip(p.exp, spec_rest_ip(p));
    lemma_from_ip_roundtrip(p);
}

proof fn lemma_from_resph_roundtrip(p: PayloadView)
    ensures
        spec_parse_from_resph(
            p.destination,
            p.query_params,
            p.request_headers,
            spec_rest_resph(p),
        ) == Option::Some(p),
{
    assert(spec_rest_resph(p) =~= spec_key_response_headers() + (spec_opt_obj(p.response_headers)
        + spec_rest_exp(p)));
    lemma_prefix_skip(
        spec_key_response_headers(),
        spec_opt_obj(p.response_headers) + spec_rest_exp(p),
    );
    lemma_parse_opt_obj_roundtrip(p.response_headers, spec_rest_exp(p));
    lemma_from_exp_roundtrip(p);
}

proof fn lemma_from_reqh_roundtrip(p: PayloadView)
    ensures
        spec_parse_from_reqh(p.destination, p.query_params, spec_rest_reqh(p)) == Option::Some(p),
{
    assert(spec_rest_reqh(p) =~= spec_key_request_headers() + (spec_opt_obj(p.request_headers)
        + spec_rest_resph(p)));
    lemma_prefix_skip(
        spec_key_request_headers(),
        spec_opt_obj(p.request_headers) + spec_rest_resph(p),
    );
    lemma_parse_opt_obj_roundtrip(p.request_headers, spec_rest_resph(p));
    lemma_from_resph_roundtrip(p);
}

proof fn lemma_from_qp_roundtrip(p: PayloadView)
    ensures
        spec_parse_from_qp(p.destination, spec_rest_qp(p)) == Option::Some(p),
{
    assert(spec_rest_qp(p) =~= spec_key_query_params() + (spec_opt_obj(p.query_params)
        + spec_rest_reqh(p)));
    lemma_prefix_skip(spec_key_query_params(), spec_opt_obj(p.query_params) + spec_rest_reqh(p));
    lemma_parse_opt_obj_roundtrip(p.query_params, spec_rest_reqh(p));
    lemma_from_reqh_roundtrip(p);
}

/// The round trip of the payload grammar: parsing a serialized record gives
/// the record back.
pub proof fn lemma_parse_payload_roundtrip(p: PayloadView)
    ensures
        spec_parse_payload(spec_payload_json(p)) == Option::Some(p),
{
    let j = spec_payload_json(p);
    let k1 = seq![LBRACE] + spec_key_destination();
    lemma_payload_shape(p);
    lemma_prefix_skip(k1, spec_quoted(p.destination) + spec_rest_qp(p));
    assert(k1.len() == 1 + spec_key_destination().len());
    lemma_parse_quoted(p.destination, spec_rest_qp(p));
    assert(spec_parse_string(j.skip(1 + spec_key_destination().len() as int)) == Option::Some(
        (p.destination, spec_rest_qp(p)),
    ));
    lemma_from_qp_roundtrip(p);
}


// ---------------------------------------------------------------------------
// Parsing, executable side.
// ---------------------------------------------------------------------------
pub(crate) fn slice_skip<'a>(s: &'a [u8], n: usize) -> (r: &'a [u8])
    requires
        n <= s@.len(),
    ensures
        r@ == s@.skip(n as int),
{
    let r = &s[n..s.len()];
    proof {
        assert(r@ =~= s@.skip(n as int));
    }
    r
}

pub(crate) fn has_prefix(s: &[u8], p: &[u8]) -> (r: bool)
    ensures
        r == spec_starts_with(s@, p@),
{
    if s.len() < p.len() {
        proof {
            assert(!spec_starts_with(s@, p@));
        }
        return false;
    }
    let mut i: usize = 0;
    while i < p.len()
        invariant
            i <= p@.len() <= s@.len(),
            forall|j: int| 0 <= j < i ==> s@[j] == p@[j],
        decreases p@.len() - i,
    {
        if s[i] != p[i] {
            proof {
                assert(s@.take(p@.len() as int)[i as int] == s@[i as int]);
                assert(s@.take(p@.len() as int) != p@);
            }
            return false;
        }
        i = i + 1;
    }
    proof {
        assert(s@.take(p@.len() as int) =~= p@);
    }
    true
}

pub(crate) fn null_lit() -> (r: Vec<u8>)
    ensures
        r@ == spec_null(),
{
    let lit: Vec<u8> = vec![0x6eu8, 0x75, 0x6c, 0x6c];
    assert(lit@ =~= spec_null());
    lit
}

fn hex_val(b: u8) -> (r: u8)
    requires
        is_hex(b),
    ensures
        r == spec_hex_val(b),
{
    if 0x30 <= b && b <= 0x39 {
        b - 0x30
    } else if 0x61 <= b && b <= 0x66 {
        b - 0x61 + 10
    } else {
        b - 0x41 + 10
    }
}

fn is_hex_byte(b: u8) -> (r: bool)
    ensures
        r == is_hex(b),
{
    (0x30 <= b && b <= 0x39) || (0x61 <= b && b <= 0x66) || (0x41 <= b && b <= 0x46)
}

/// Parses a string body after the opening quote, mirroring
/// [`spec_parse_str_rest`].
fn parse_str_rest<'a>(s: &'a [u8]) -> (r: Option<(Vec<u8>, &'a [u8])>)
    ensures
        match r {
            Option::Some(p) => spec_parse_str_rest(s@) == Option::Some((p.0@, p.1@)),
            Option::None => spec_parse_str_rest(s@) is None,
        },
    decreases s@.len(),
{
    if s.len() == 0 {
        return Option::None;
    }
    let b0 = s[0];
    if b0 == QUOTE {
        let rest = slice_skip(s, 1);
        return Option::Some((Vec::new(), rest));
    }
    if b0 == BACKSLASH {
        if s.len() >= 2 {
            let b1 = s[1];
            let short: Option<u8> = if b1 == QUOTE {
                Option::Some(QUOTE)
            } else if b1 == BACKSLASH {
                Option::Some(BACKSLASH)
            } else if b1 == 0x2f {
                Option::Some(0x2fu8)
            } else if b1 == 0x62 {
                Option::Some(0x08u8)
            } else if b1 == 0x66 {
                Option::Some(0x0cu8)
            } else if b1 == 0x6e {
                Option::Some(0x0au8)
            } else if b1 == 0x72 {
                Option::Some(0x0du8)
            } else if b1 == 0x74 {
                Option::Some(0x09u8)
            } else {
                Option::None
            };
            assert(short == spec_short_escape(s@[1]));
            match short {
                Option::Some(c) => {
                    let tail = slice_skip(s, 2);
                    match parse_str_rest(tail) {
                        Option::None => Option::None,
                        Option::Some((mut v, rest)) => {
                            v.insert(0, c);
                            proof {
                                assert(v@ =~= seq![c] + v@.skip(1));
                            }
                            Option::Some((v, rest))
                        },
                    }
                },
                Option::None => {
                    if s.len() >= 6 && b1 == 0x75 && is_hex_byte(s[2]) && is_hex_byte(s[3])
                        && is_hex_byte(s[4]) && is_hex_byte(s[5]) {
                        let hv: u16 = (hex_val(s[2]) as u16) * 0x1000 + (hex_val(s[3]) as u16)
                            * 0x100 + (hex_val(s[4]) as u16) * 16 + (hex_val(s[5]) as u16);
                        assert(hv == spec_hex4(s@[2], s@[3], s@[4], s@[5]));
                        if hv < 0x20 {
                            let tail = slice_skip(s, 6);
                            match parse_str_rest(tail) {
                                Option::None => Option::None,
                                Option::Some((mut v, rest)) => {
                                    v.insert(0, hv as u8);
                                    proof {
                                        assert(v@ =~= seq![(hv as u8)] + v@.skip(1));
                                    }
                                    Option::Some((v, rest))
                                },
                            }
                        } else {
                            Option::None
                        }
                    } else {
                        Option::None
                    }
                },
            }
        } else {
            Option::None
        }
    } else if b0 < 0x20 {
        Option::None
    } else {
        let tail = slice_skip(s, 1);
        match parse_str_rest(tail) {
            Option::None => Option::None,
            Option::Some((mut v, rest)) => {
                v.insert(0, b0);
                proof {
                    assert(v@ =~= seq![b0] + v@.skip(1));
                }
                Option::Some((v, rest))
            },
        }
    }
}

/// Parses a quoted string, mirroring [`spec_parse_string`].
pub(crate) fn parse_string<'a>(s: &'a [u8]) -> (r: Option<(Vec<u8>, &'a [u8])>)
    ensures
        match r {
            Option::Some(p) => spec_parse_string(s@) == Option::Some((p.0@, p.1@)),
            Option::None => spec_parse_string(s@) is None,
        },
{
    if s.len() > 0 && s[0] == QUOTE {
        parse_str_rest(slice_skip(s, 1))
    } else {
        Option::None
    }
}


pub open spec fn pow10(k: nat) -> int
    decreases k,
{
    if k == 0 {
        1
    } else {
        10 * pow10((k - 1) as nat)
    }
}

proof fn lemma_pow10_20()
    ensures
        pow10(20) == 0x56bc75e2d63100000,
        pow10(20) > u64::MAX,
{
    assert(pow10(0) == 1);
    assert(pow10(1) == 10);
    assert(pow10(2) == 100);
    assert(pow10(3) == 1000);
    assert(pow10(4) == 10000);
    assert(pow10(5) == 100000);
    assert(pow10(6) == 1000000);
    assert(pow10(7) == 10000000);
    assert(pow10(8) == 100000000);
    assert(pow10(9) == 1000000000);
    assert(pow10(10) == 10000000000);
    assert(pow10(11) == 100000000000);
    assert(pow10(12) == 1000000000000);
    assert(pow10(13) == 10000000000000);
    assert(pow10(14) == 100000000000000);
    assert(pow10(15) == 1000000000000000);
    assert(pow10(16) == 10000000000000000);
    assert(pow10(17) == 100000000000000000);
    assert(pow10(18) == 1000000000000000000);
    assert(pow10(19) == 10000000000000000000);
    assert(pow10(20) == 100000000000000000000);
}

proof fn lemma_pow10_monotone(a: nat, b: nat)
    requires
        a <= b,
    ensures
        pow10(a) <= pow10(b),
        pow10(a) >= 1,
    decreases b,
{
    if a == b {
        if b > 0 {
            lemma_pow10_monotone((b - 1) as nat, (b - 1) as nat);
        }
    } else {
        lemma_pow10_monotone(a, (b - 1) as nat);
    }
}

/// The value of a digit string is below `pow10` of its length.
proof fn lemma_digits_val_upper(d: Seq<u8>)
    requires
        forall|i: int| 0 <= i < d.len() ==> is_digit(#[trigger] d[i]),
    ensures
        0 <= spec_digits_val(d) < pow10(d.len()),
    decreases d.len(),
{
    if d.len() == 0 {
    } else {
        let dh = d.take(d.len() - 1);
        assert(forall|i: int| 0 <= i < dh.len() ==> is_digit(#[trigger] dh[i]));
        lemma_digits_val_upper(dh);
        assert(is_digit(d[d.len() - 1]));
        assert(spec_digits_val(d) <= (pow10((d.len() - 1) as nat) - 1) * 10 + 9);
    }
}

/// A digit string without a leading zero has a value of at least `pow10` of
/// one less than its length.
proof fn lemma_digits_val_lower(d: Seq<u8>)
    requires
        forall|i: int| 0 <= i < d.len() ==> is_digit(#[trigger] d[i]),
        d.len() >= 1,
        d[0] != 0x30,
    ensures
        spec_digits_val(d) >= pow10((d.len() - 1) as nat),
    decreases d.len(),
{
    if d.len() == 1 {
        assert(spec_digits_val(d.take(0)) == 0);
    } else {
        let dh = d.take(d.len() - 1);
        assert(forall|i: int| 0 <= i < dh.len() ==> is_digit(#[trigger] dh[i]));
        assert(dh[0] == d[0]);
        lemma_digits_val_lower(dh);
        assert(spec_digits_val(d) == spec_digits_val(dh) * 10 + (d[d.len() - 1] - 0x30));
        assert(spec_digits_val(dh) * 10 >= pow10((d.len() - 2) as nat) * 10);
    }
}

/// Parses a canonical decimal `u64`, mirroring [`spec_parse_u64`].
fn parse_u64<'a>(s: &'a [u8]) -> (r: Option<(u64, &'a [u8])>)
    ensures
        match r {
            Option::Some(p) => spec_parse_u64(s@) == Option::Some((p.0, p.1@)),
            Option::None => spec_parse_u64(s@) is None,
        },
{
    let mut n: usize = 0;
    while n < s.len() && 0x30 <= s[n] && s[n] <= 0x39
        invariant
            n <= s@.len(),
            forall|j: int| 0 <= j < n ==> is_digit(#[trigger] s@[j]),
        decreases s@.len() - n,
    {
        n = n + 1;
    }
    proof {
        lemma_digit_prefix_count(s@, n as int);
    }
    if n == 0 {
        return Option::None;
    }
    if s[0] == 0x30 && n > 1 {
        return Option::None;
    }
    let ghost d = s@.take(n as int);
    if n > 20 {
        proof {
            assert(forall|i: int| 0 <= i < d.len() ==> is_digit(#[trigger] d[i]));
            lemma_digits_val_lower(d);
            lemma_pow10_20();
            lemma_pow10_monotone(20, (d.len() - 1) as nat);
        }
        return Option::None;
    }
    let mut acc: u128 = 0;
    let mut j: usize = 0;
    proof {
        assert(spec_digits_val(d.take(0)) == 0);
    }
    while j < n
        invariant
            j <= n <= s@.len(),
            n <= 20,
            d == s@.take(n as int),
            forall|i: int| 0 <= i < d.len() ==> is_digit(#[trigger] d[i]),
            acc == spec_digits_val(d.take(j as int)),
            0 <= spec_digits_val(d.take(j as int)) < pow10(j as nat),
        decreases n - j,
    {
        let b = s[j];
        proof {
            assert(d[j as int] == s@[j as int]);
            assert(is_digit(d[j as int]));
            lemma_pow10_monotone(j as nat, 20);
            lemma_pow10_20();
            assert(acc * 10 + 9 < pow10((j + 1) as nat) <= pow10(20) * 10);
            assert(d.take(j + 1).take(j as int) =~= d.take(j as int));
            assert(d.take(j + 1)[j as int] == d[j as int]);
        }
        acc = acc * 10 + ((b - 0x30) as u128);
        j = j + 1;
        proof {
            lemma_digits_val_upper(d.take(j as int));
        }
    }
    proof {
        assert(d.take(n as int) =~= d);
    }
    if acc <= u64::MAX as u128 {
        let rest = slice_skip(s, n);
        Option::Some((acc as u64, rest))
    } else {
        Option::None
    }
}

/// The scanned digit count equals the specification's prefix length.
proof fn lemma_digit_prefix_count(s: Seq<u8>, n: int)
    requires
        0 <= n <= s.len(),
        forall|j: int| 0 <= j < n ==> is_digit(#[trigger] s[j]),
        n == s.len() || !is_digit(s[n]),
    ensures
        spec_digits_prefix_len(s) == n,
    decreases n,
{
    if n == 0 {
    } else {
        assert(is_digit(s[0]));
        lemma_digit_prefix_count(s.skip(1), n - 1);
    }
}


/// Parses `"key":"value"` members up to the closing brace, mirroring
/// [`spec_parse_members`].
fn parse_members<'a>(s: &'a [u8]) -> (r: Option<(Vec<(Vec<u8>, Vec<u8>)>, &'a [u8])>)
    ensures
        match r {
            Option::Some(p) => spec_parse_members(s@) == Option::Some((view_pairs(p.0@), p.1@)),
            Option::None => spec_parse_members(s@) is None,
        },
    decreases s@.len(),
{
    match parse_string(s) {
        Option::None => Option::None,
        Option::Some((k, r1)) => {
            if r1.len() > 0 && r1[0] == COLON {
                match parse_string(slice_skip(r1, 1)) {
                    Option::None => Option::None,
                    Option::Some((v, r2)) => {
                        if r2.len() > 0 && r2[0] == COMMA {
                            proof {
                                lemma_parse_string_consumes(s@);
                                lemma_parse_string_consumes(r1@.skip(1));
                            }
                            match parse_members(slice_skip(r2, 1)) {
                                Option::None => Option::None,
                                Option::Some((mut ps, r3)) => {
                                    ps.insert(0, (k, v));
                                    proof {
                                        let kk = ps@[0].0@;
                                        assert(view_pairs(ps@) =~= seq![
                                            (ps@[0].0@, ps@[0].1@),
                                        ] + view_pairs(ps@.skip(1)));
                                    }
                                    Option::Some((ps, r3))
                                },
                            }
                        } else if r2.len() > 0 && r2[0] == RBRACE {
                            let mut ps: Vec<(Vec<u8>, Vec<u8>)> = Vec::new();
                            let ghost kv = (k@, v@);
                            ps.push((k, v));
                            proof {
                                assert(view_pairs(ps@) =~= seq![kv]);
                            }
                            Option::Some((ps, slice_skip(r2, 1)))
                        } else {
                            Option::None
                        }
                    },
                }
            } else {
                Option::None
            }
        },
    }
}

/// Parses an object, mirroring [`spec_parse_obj`].
fn parse_obj<'a>(s: &'a [u8]) -> (r: Option<(Vec<(Vec<u8>, Vec<u8>)>, &'a [u8])>)
    ensures
        match r {
            Option::Some(p) => spec_parse_obj(s@) == Option::Some((view_pairs(p.0@), p.1@)),
            Option::None => spec_parse_obj(s@) is None,
        },
{
    if s.len() >= 2 && s[0] == LBRACE && s[1] == RBRACE {
        let ps: Vec<(Vec<u8>, Vec<u8>)> = Vec::new();
        proof {
            assert(view_pairs(ps@) =~= Seq::<(Seq<u8>, Seq<u8>)>::empty());
        }
        Option::Some((ps, slice_skip(s, 2)))
    } else if s.len() >= 1 && s[0] == LBRACE {
        parse_members(slice_skip(s, 1))
    } else {
        Option::None
    }
}

/// Parses an object or `null`, mirroring [`spec_parse_opt_obj`].
fn parse_opt_obj<'a>(s: &'a [u8]) -> (r: Option<
    (Option<Vec<(Vec<u8>, Vec<u8>)>>, &'a [u8]),
>)
    ensures
        match r {
            Option::Some(p) => spec_parse_opt_obj(s@) == Option::Some(
                (view_opt_pairs(p.0), p.1@),
            ),
            Option::None => spec_parse_opt_obj(s@) is None,
        },
{
    let nl = null_lit();
    if has_prefix(s, nl.as_slice()) {
        Option::Some((Option::None, slice_skip(s, 4)))
    } else {
        match parse_obj(s) {
            Option::None => Option::None,
            Option::Some((ps, r)) => Option::Some((Option::Some(ps), r)),
        }
    }
}

/// Parses a number or `null`, mirroring [`spec_parse_opt_u64`].
fn parse_opt_u64<'a>(s: &'a [u8]) -> (r: Option<(Option<u64>, &'a [u8])>)
    ensures
        match r {
            Option::Some(p) => spec_parse_opt_u64(s@) == Option::Some((p.0, p.1@)),
            Option::None => spec_parse_opt_u64(s@) is None,
        },
{
    let nl = null_lit();
    if has_prefix(s, nl.as_slice()) {
        Option::Some((Option::None, slice_skip(s, 4)))
    } else {
        match parse_u64(s) {
            Option::None => Option::None,
            Option::Some((n, r)) => Option::Some((Option::Some(n), r)),
        }
    }
}

/// Parses a string or `null`, mirroring [`spec_parse_opt_string`].
fn parse_opt_string<'a>(s: &'a [u8]) -> (r: Option<(Option<Vec<u8>>, &'a [u8])>)
    ensures
        match r {
            Option::Some(p) => spec_parse_opt_string(s@) == Option::Some(
                (view_opt_bytes(p.0), p.1@),
            ),
            Option::None => spec_parse_opt_string(s@) is None,
        },
{
    let nl = null_lit();
    if has_prefix(s, nl.as_slice()) {
        Option::Some((Option::None, slice_skip(s, 4)))
    } else {
        match parse_string(s) {
            Option::None => Option::None,
            Option::Some((v, r)) => Option::Some((Option::Some(v), r)),
        }
    }
}

fn key_destination_head() -> (r: Vec<u8>)
    ensures
        r@ == seq![LBRACE] + spec_key_destination(),
{
    let mut v: Vec<u8> = Vec::new();
    v.push(LBRACE);
    push_key_destination(&mut v);
    proof {
        assert(v@ =~= seq![LBRACE] + spec_key_destination());
    }
    v
}

fn key_query_params_lit() -> (r: Vec<u8>)
    ensures
        r@ == spec_key_query_params(),
{
    let mut v: Vec<u8> = Vec::new();
    push_key_query_params(&mut v);
    proof {
        assert(v@ =~= spec_key_query_params());
    }
    v
}

fn key_request_headers_lit() -> (r: Vec<u8>)
    ensures
        r@ == spec_key_request_headers(),
{
    let mut v: Vec<u8> = Vec::new();
    push_key_request_headers(&mut v);
    proof {
        assert(v@ =~= spec_key_request_headers());
    }
    v
}

fn key_response_headers_lit() -> (r: Vec<u8>)
    ensures
        r@ == spec_key_response_headers(),
{
    let mut v: Vec<u8> = Vec::new();
    push_key_response_headers(&mut v);
    proof {
        assert(v@ =~= spec_key_response_headers());
    }
    v
}

fn key_exp_lit() -> (r: Vec<u8>)
    ensures
        r@ == spec_key_exp(),
{
    let mut v: Vec<u8> = Vec::new();
    push_key_exp(&mut v);
    proof {
        assert(v@ =~= spec_key_exp());
    }
    v
}

fn key_ip_lit() -> (r: Vec<u8>)
    ensures
        r@ == spec_key_ip(),
{
    let mut v: Vec<u8> = Vec::new();
    push_key_ip(&mut v);
    proof {
        assert(v@ =~= spec_key_ip());
    }
    v
}

/// Parses a whole payload object, mirroring [`spec_parse_payload`]; the
/// input must be consumed exactly.
#[verifier::rlimit(100)]
pub fn parse_payload(s: &[u8]) -> (r: Option<JsonPayload>)
    ensures
        match r {
            Option::Some(p) => spec_parse_payload(s@) == Option::Some(p@),
            Option::None => spec_parse_payload(s@) is None,
        },
{
    let head = key_destination_head();
    if !has_prefix(s, head.as_slice()) {
        return Option::None;
    }
    let s1 = slice_skip(s, head.len());
    proof {
        assert(s1@ == s@.skip(1 + spec_key_destination().len() as int));
    }
    match parse_string(s1) {
        Option::None => Option::None,
        Option::Some((dest, r1)) => {
            let kq = key_query_params_lit();
            if !has_prefix(r1, kq.as_slice()) {
                return Option::None;
            }
            match parse_opt_obj(slice_skip(r1, kq.len())) {
                Option::None => Option::None,
                Option::Some((qp, r2)) => {
                    let kr = key_request_headers_lit();
                    if !has_prefix(r2, kr.as_slice()) {
                        return Option::None;
                    }
                    match parse_opt_obj(slice_skip(r2, kr.len())) {
                        Option::None => Option::None,
                        Option::Some((reqh, r3)) => {
                            let ks = key_response_headers_lit();
                            if !has_prefix(r3, ks.as_slice()) {
                                return Option::None;
                            }
                            match parse_opt_obj(slice_skip(r3, ks.len())) {
                                Option::None => Option::None,
                                Option::Some((resph, r4)) => {
                                    let ke = key_exp_lit();
                                    if !has_prefix(r4, ke.as_slice()) {
                                        return Option::None;
                                    }
                                    match parse_opt_u64(slice_skip(r4, ke.len())) {
                                        Option::None => Option::None,
                                        Option::Some((exp, r5)) => {
                                            let ki = key_ip_lit();
                                            if !has_prefix(r5, ki.as_slice()) {
                                                return Option::None;
                                            }
                                            match parse_opt_string(slice_skip(r5, ki.len())) {
                                                Option::None => Option::None,
                                                Option::Some((ip, r6)) => {
                                                    if r6.len() == 1 && r6[0] == RBRACE {
                                                        proof {
                                                            assert(r6@ =~= seq![RBRACE]);
                                                        }
                                                        Option::Some(
                                                            JsonPayload {
                                                                destination: dest,
                                                                query_params: qp,
                                                                request_headers: reqh,
                                                                response_headers: resph,
                                                                exp: exp,
                                                                ip: ip,
                                                            },
                                                        )
                                                    } else {
                                                        proof {
                                                            assert(!(r6@ =~= seq![RBRACE]));
                                                        }
                                                        Option::None
                                                    }
                                                },
                                            }
                                        },
                                    }
                                },
                            }
                        },
                    }
                },
            }
        },
    }
}

} // verus!
