//! Query strings: percent decoding and encoding, splitting a query into
//! its key–value pairs, and lookups over the parsed pairs.
//!
//! A query is split on `&`; each piece splits at its first `=`; pieces
//! without `=`, or with an empty key or value, are dropped. Keys stay as
//! written; values are percent-decoded, falling back to the raw text when
//! the decoded bytes are not UTF-8.

use vstd::prelude::*;

use crate::encryption::view_str_pairs;
use crate::json::{is_hex, spec_hex_val};
use vstd::string::StrSliceExecFns;
use vstd::utf8::{decode_utf8, encode_utf8, valid_utf8};

verus! {

pub const AMP: u8 = 0x26;
pub const EQUALS: u8 = 0x3d;
pub const PERCENT: u8 = 0x25;

// ---------------------------------------------------------------------------
// Percent decoding.
// ---------------------------------------------------------------------------
/// Percent decoding: `%XX` with two hex digits becomes one byte; anything
/// else stands as itself.
pub open spec fn spec_percent_decode(s: Seq<u8>) -> Seq<u8>
    decreases s.len(),
{
    if s.len() == 0 {
        Seq::empty()
    } else if s[0] == PERCENT && s.len() >= 3 && is_hex(s[1]) && is_hex(s[2]) {
        seq![(spec_hex_val(s[1]) * 16 + spec_hex_val(s[2])) as u8] + spec_percent_decode(s.skip(3))
    } else {
        seq![s[0]] + spec_percent_decode(s.skip(1))
    }
}

fn hex_value(b: u8) -> (r: u8)
    requires
        is_hex(b),
    ensures
        r == spec_hex_val(b),
{
    if 0x30 <= b && b <= 0x39 {
        b - 0x30
    } else if 0x61 <= b && b <= 0x66 {
        b - 0x61 + 10
    } else {
        b - 0x41 + 10
    }
}

fn hex_check(b: u8) -> (r: bool)
    ensures
        r == is_hex(b),
{
    (0x30 <= b && b <= 0x39) || (0x61 <= b && b <= 0x66) || (0x41 <= b && b <= 0x46)
}

/// Percent-decodes a byte string, mirroring [`spec_percent_decode`].
pub fn percent_decode(s: &[u8]) -> (r: Vec<u8>)
    ensures
        r@ == spec_percent_decode(s@),
{
    let mut out: Vec<u8> = Vec::new();
    let mut i: usize = 0;
    proof {
        assert(s@.skip(0) =~= s@);
    }
    while i < s.len()
        invariant
            i <= s@.len(),
            spec_percent_decode(s@) == out@ + spec_percent_decode(s@.skip(i as int)),
        decreases s@.len() - i,
    {
        let ghost rest = s@.skip(i as int);
        proof {
            assert(rest[0] == s@[i as int]);
            if i + 2 < s@.len() {
                assert(rest[1] == s@[i + 1] && rest[2] == s@[i + 2]);
            }
        }
        if s[i] == PERCENT && s.len() - i > 2 && hex_check(s[i + 1]) && hex_check(s[i + 2]) {
            let v = hex_value(s[i + 1]) * 16 + hex_value(s[i + 2]);
            out.push(v);
            proof {
                assert(rest.len() >= 3);
                assert(rest.skip(3) =~= s@.skip(i + 3));
                assert(out@ + spec_percent_decode(s@.skip(i + 3)) =~= (out@.drop_last()
                    + seq![v]) + spec_percent_decode(s@.skip(i + 3)));
                assert(spec_percent_decode(s@) =~= out@ + spec_percent_decode(s@.skip(i + 3)));
            }
            i = i + 3;
        } else {
            let b = s[i];
            out.push(b);
            proof {
                if rest[0] == PERCENT && rest.len() >= 3 && is_hex(rest[1]) && is_hex(rest[2]) {
                    assert(i + 2 < s@.len());
                    assert(false);
                }
                assert(rest.skip(1) =~= s@.skip(i + 1));
                assert(spec_percent_decode(s@) =~= out@ + spec_percent_decode(s@.skip(i + 1)));
            }
            i = i + 1;
        }
    }
    proof {
        assert(s@.skip(s@.len() as int) =~= Seq::<u8>::empty());
        assert(spec_percent_decode(s@) =~= out@);
    }
    out
}

/// The bytes that percent encoding leaves as they are: letters, digits,
/// `-`, `.`, `_` and `~`.
pub open spec fn is_unreserved(b: u8) -> bool {
    (0x30 <= b <= 0x39) || (0x41 <= b <= 0x5a) || (0x61 <= b <= 0x7a) || b == 0x2d || b == 0x2e
        || b == 0x5f || b == 0x7e
}

pub open spec fn spec_upper_hex_digit(n: u8) -> u8
    recommends
        n < 16,
{
    if n < 10 {
        (0x30 + n) as u8
    } else {
        (0x41 + (n - 10)) as u8
    }
}

/// Percent encoding: unreserved bytes stand as themselves, every other
/// byte becomes `%XX` with upper-case hex digits.
pub open spec fn spec_percent_encode(s: Seq<u8>) -> Seq<u8>
    decreases s.len(),
{
    if s.len() == 0 {
        Seq::empty()
    } else if is_unreserved(s[0]) {
        seq![s[0]] + spec_percent_encode(s.skip(1))
    } else {
        seq![PERCENT, spec_upper_hex_digit(s[0] / 16), spec_upper_hex_digit(s[0] % 16)]
            + spec_percent_encode(s.skip(1))
    }
}

/// Percent-encodes a byte string, mirroring [`spec_percent_encode`].
pub fn percent_encode(s: &[u8]) -> (r: Vec<u8>)
    ensures
        r@ == spec_percent_encode(s@),
{
    let mut out: Vec<u8> = Vec::new();
    let mut i: usize = 0;
    proof {
        assert(s@.skip(0) =~= s@);
    }
    while i < s.len()
        invariant
            i <= s@.len(),
            spec_percent_encode(s@) == out@ + spec_percent_encode(s@.skip(i as int)),
        decreases s@.len() - i,
    {
        let b = s[i];
        let ghost rest = s@.skip(i as int);
        proof {
            assert(rest[0] == s@[i as int]);
            assert(rest.skip(1) =~= s@.skip(i + 1));
        }
        if (0x30 <= b && b <= 0x39) || (0x41 <= b && b <= 0x5a) || (0x61 <= b && b <= 0x7a) || b
            == 0x2d || b == 0x2e || b == 0x5f || b == 0x7e {
            out.push(b);
        } else {
            out.push(PERCENT);
            let hi = b / 16;
            let lo = b % 16;
            out.push(if hi < 10 { 0x30 + hi } else { 0x41 + (hi - 10) });
            out.push(if lo < 10 { 0x30 + lo } else { 0x41 + (lo - 10) });
        }
        proof {
            assert(spec_percent_encode(s@) =~= out@ + spec_percent_encode(s@.skip(i + 1)));
        }
        i = i + 1;
    }
    proof {
        assert(s@.skip(s@.len() as int) =~= Seq::<u8>::empty());
        assert(spec_percent_encode(s@) =~= out@);
    }
    out
}

proof fn lemma_upper_hex_val(x: u8)
    requires
        x < 16,
    ensures
        is_hex(spec_upper_hex_digit(x)),
        spec_hex_val(spec_upper_hex_digit(x)) == x,
{
}

/// Percent coding round trip: decoding an encoded byte string gives the
/// original bytes back, whatever they were.
pub proof fn lemma_percent_decode_encode(x: Seq<u8>)
    ensures
        spec_percent_decode(spec_percent_encode(x)) == x,
    decreases x.len(),
{
    if x.len() == 0 {
        assert(spec_percent_encode(x) =~= Seq::<u8>::empty());
    } else {
        lemma_percent_decode_encode(x.skip(1));
        let b = x[0];
        let e = spec_percent_encode(x);
        let rest = spec_percent_encode(x.skip(1));
        if is_unreserved(b) {
            assert(e =~= seq![b] + rest);
            assert(e[0] == b && b != PERCENT);
            assert(e.skip(1) =~= rest);
            assert(seq![b] + x.skip(1) =~= x);
        } else {
            let h1 = spec_upper_hex_digit(b / 16);
            let h2 = spec_upper_hex_digit(b % 16);
            assert(e =~= seq![PERCENT, h1, h2] + rest);
            assert(e[0] == PERCENT && e[1] == h1 && e[2] == h2);
            lemma_upper_hex_val(b / 16);
            lemma_upper_hex_val(b % 16);
            assert(spec_hex_val(e[1]) * 16 + spec_hex_val(e[2]) == (b / 16) * 16 + b % 16);
            assert((b / 16) * 16 + b % 16 == b);
            assert(e.skip(3) =~= rest);
            assert(seq![b] + x.skip(1) =~= x);
        }
    }
}

// ---------------------------------------------------------------------------
// String equality.
// ---------------------------------------------------------------------------
fn eq_bytes(a: &[u8], b: &[u8]) -> (r: bool)
    ensures
        r == (a@ == b@),
{
    if a.len() != b.len() {
        return false;
    }
    let mut p: usize = 0;
    while p < a.len()
        invariant
            p <= a@.len(),
            a@.len() == b@.len(),
            forall|q: int| 0 <= q < p ==> a@[q] == b@[q],
        decreases a@.len() - p,
    {
        if a[p] != b[p] {
            return false;
        }
        p = p + 1;
    }
    proof {
        assert(a@ =~= b@);
    }
    true
}

/// Text equality through the UTF-8 encodings.
pub fn str_eq(a: &str, b: &str) -> (r: bool)
    ensures
        r == (a@ == b@),
{
    let r = eq_bytes(a.as_bytes(), b.as_bytes());
    proof {
        broadcast use vstd::utf8::encode_utf8_decode_utf8;

        if encode_utf8(a@) == encode_utf8(b@) {
            assert(decode_utf8(encode_utf8(a@)) == decode_utf8(encode_utf8(b@)));
            assert(a@ == b@);
        }
    }
    r
}

// ---------------------------------------------------------------------------
// Splitting a query into pairs.
// ---------------------------------------------------------------------------
/// The index of the first occurrence of a byte, or the length if absent.
pub open spec fn spec_find_byte(s: Seq<u8>, b: u8) -> int
    decreases s.len(),
{
    if s.len() == 0 {
        0
    } else if s[0] == b {
        0
    } else {
        1 + spec_find_byte(s.skip(1), b)
    }
}

pub proof fn lemma_find_byte(s: Seq<u8>, b: u8)
    ensures
        0 <= spec_find_byte(s, b) <= s.len(),
        spec_find_byte(s, b) < s.len() ==> s[spec_find_byte(s, b)] == b,
        forall|j: int| 0 <= j < spec_find_byte(s, b) ==> s[j] != b,
    decreases s.len(),
{
    if s.len() == 0 {
    } else if s[0] == b {
    } else {
        lemma_find_byte(s.skip(1), b);
        let i = spec_find_byte(s, b);
        if i < s.len() {
            assert(s.skip(1)[i - 1] == s[i]);
        }
        assert forall|j: int| 0 <= j < i implies s[j] != b by {
            if j > 0 {
                assert(s.skip(1)[j - 1] == s[j]);
            }
        }
    }
}

proof fn lemma_find_byte_is(s: Seq<u8>, b: u8, i: int)
    requires
        0 <= i <= s.len(),
        forall|j: int| 0 <= j < i ==> s[j] != b,
        i < s.len() ==> s[i] == b,
    ensures
        spec_find_byte(s, b) == i,
    decreases s.len(),
{
    if s.len() == 0 {
    } else if s[0] == b {
        assert(i == 0);
    } else {
        assert(i > 0);
        assert(forall|j: int| 0 <= j < i - 1 ==> #[trigger] s.skip(1)[j] == s[j + 1]);
        if i - 1 < s.skip(1).len() {
            assert(s.skip(1)[i - 1] == s[i]);
        }
        lemma_find_byte_is(s.skip(1), b, i - 1);
    }
}

fn find_byte(s: &[u8], b: u8) -> (i: usize)
    ensures
        i as int == spec_find_byte(s@, b),
        i <= s@.len(),
{
    let mut i: usize = 0;
    while i < s.len()
        invariant
            i <= s@.len(),
            forall|j: int| 0 <= j < i ==> s@[j] != b,
        decreases s@.len() - i,
    {
        if s[i] == b {
            proof {
                lemma_find_byte_is(s@, b, i as int);
            }
            return i;
        }
        i = i + 1;
    }
    proof {
        lemma_find_byte_is(s@, b, i as int);
    }
    i
}

/// The value a raw value text denotes: the percent-decoded bytes when they
/// are UTF-8, the raw text when only it is, nothing otherwise.
pub open spec fn spec_param_value(v: Seq<u8>) -> Seq<char> {
    if valid_utf8(spec_percent_decode(v)) {
        decode_utf8(spec_percent_decode(v))
    } else if valid_utf8(v) {
        decode_utf8(v)
    } else {
        Seq::empty()
    }
}

/// The pairs one `&`-separated piece contributes: none without `=`, an
/// empty key, an empty value or a non-UTF-8 key.
pub open spec fn spec_parse_pair(seg: Seq<u8>) -> Seq<(Seq<char>, Seq<char>)> {
    let e = spec_find_byte(seg, EQUALS);
    if e < seg.len() {
        let k = seg.take(e);
        let v = seg.skip(e + 1);
        if k.len() == 0 || v.len() == 0 {
            Seq::empty()
        } else if !valid_utf8(k) {
            Seq::empty()
        } else {
            seq![(decode_utf8(k), spec_param_value(v))]
        }
    } else {
        Seq::empty()
    }
}

/// All pairs of a query: the pieces between `&` separators, in order.
pub open spec fn spec_parse_query(q: Seq<u8>) -> Seq<(Seq<char>, Seq<char>)>
    decreases q.len(),
    via spec_parse_query_dec
{
    let i = spec_find_byte(q, AMP);
    if i < q.len() {
        spec_parse_pair(q.take(i)) + spec_parse_query(q.skip(i + 1))
    } else {
        spec_parse_pair(q)
    }
}

#[via_fn]
proof fn spec_parse_query_dec(q: Seq<u8>) {
    lemma_find_byte(q, AMP);
}

fn parse_pair(seg: &[u8]) -> (r: Option<(String, String)>)
    ensures
        match r {
            Option::Some(p) => spec_parse_pair(seg@) == seq![(p.0@, p.1@)],
            Option::None => spec_parse_pair(seg@) == Seq::<(Seq<char>, Seq<char>)>::empty(),
        },
{
    let e = find_byte(seg, EQUALS);
    if e == seg.len() {
        return Option::None;
    }
    let k = &seg[0..e];
    let v = &seg[e + 1..seg.len()];
    proof {
        assert(k@ =~= seg@.take(e as int));
        assert(v@ =~= seg@.skip(e + 1));
    }
    if k.len() == 0 || v.len() == 0 {
        return Option::None;
    }
    let key = match crate::cipher::bytes_to_string(vstd::slice::slice_to_vec(k)) {
        Option::Some(s) => s,
        Option::None => {
            return Option::None;
        },
    };
    let decoded = percent_decode(v);
    let value = match crate::cipher::bytes_to_string(decoded) {
        Option::Some(s) => s,
        Option::None => {
            match crate::cipher::bytes_to_string(vstd::slice::slice_to_vec(v)) {
                Option::Some(s) => s,
                Option::None => String::new(),
            }
        },
    };
    Option::Some((key, value))
}

/// Parses a query string into its pairs; see [`spec_parse_query`].
pub fn extract_query_params(query: &str) -> (r: Vec<(String, String)>)
    ensures
        view_str_pairs(r@) == spec_parse_query(encode_utf8(query@)),
{
    let mut out: Vec<(String, String)> = Vec::new();
    let mut s: &[u8] = query.as_bytes();
    proof {
        assert(view_str_pairs(out@) + spec_parse_query(s@) =~= spec_parse_query(
            encode_utf8(query@),
        ));
    }
    loop
        invariant
            spec_parse_query(encode_utf8(query@)) == view_str_pairs(out@) + spec_parse_query(s@),
        decreases s@.len(),
    {
        let i = find_byte(s, AMP);
        let ghost prev = out@;
        if i < s.len() {
            let seg = &s[0..i];
            proof {
                assert(seg@ =~= s@.take(i as int));
            }
            match parse_pair(seg) {
                Option::Some(p) => {
                    out.push(p);
                },
                Option::None => {},
            }
            let rest = &s[i + 1..s.len()];
            proof {
                assert(rest@ =~= s@.skip(i + 1));
                assert(view_str_pairs(out@) =~= view_str_pairs(prev) + spec_parse_pair(
                    s@.take(i as int),
                ));
                assert(view_str_pairs(out@) + spec_parse_query(rest@) =~= spec_parse_query(
                    encode_utf8(query@),
                ));
            }
            s = rest;
        } else {
            match parse_pair(s) {
                Option::Some(p) => {
                    out.push(p);
                },
                Option::None => {},
            }
            proof {
                assert(view_str_pairs(out@) =~= view_str_pairs(prev) + spec_parse_pair(s@));
                assert(view_str_pairs(out@) =~= spec_parse_query(encode_utf8(query@)));
            }
            return out;
        }
    }
}

// ---------------------------------------------------------------------------
// Lookups over parsed pairs.
// ---------------------------------------------------------------------------
/// The value of the first pair with the given key.
pub open spec fn spec_find_param(ps: Seq<(Seq<char>, Seq<char>)>, name: Seq<char>) -> Option<
    Seq<char>,
>
    decreases ps.len(),
{
    if ps.len() == 0 {
        Option::None
    } else if ps[0].0 == name {
        Option::Some(ps[0].1)
    } else {
        spec_find_param(ps.skip(1), name)
    }
}

proof fn lemma_find_param_at(ps: Seq<(Seq<char>, Seq<char>)>, name: Seq<char>, i: int)
    requires
        0 <= i < ps.len(),
        ps[i].0 == name,
        forall|j: int| 0 <= j < i ==> (#[trigger] ps[j]).0 != name,
    ensures
        spec_find_param(ps, name) == Option::Some(ps[i].1),
    decreases i,
{
    if i == 0 {
    } else {
        assert(forall|j: int| 0 <= j < i - 1 ==> #[trigger] ps.skip(1)[j] == ps[j + 1]);
        assert(ps.skip(1)[i - 1] == ps[i]);
        lemma_find_param_at(ps.skip(1), name, i - 1);
    }
}

proof fn lemma_find_param_none(ps: Seq<(Seq<char>, Seq<char>)>, name: Seq<char>)
    requires
        forall|j: int| 0 <= j < ps.len() ==> (#[trigger] ps[j]).0 != name,
    ensures
        spec_find_param(ps, name) is None,
    decreases ps.len(),
{
    if ps.len() > 0 {
        assert(forall|j: int| 0 <= j < ps.len() - 1 ==> #[trigger] ps.skip(1)[j] == ps[j + 1]);
        lemma_find_param_none(ps.skip(1), name);
    }
}

/// Finds the first pair with the given key, mirroring [`spec_find_param`].
pub fn find_param(ps: &Vec<(String, String)>, name: &str) -> (r: Option<String>)
    ensures
        match r {
            Option::Some(v) => spec_find_param(view_str_pairs(ps@), name@) == Option::Some(v@),
            Option::None => spec_find_param(view_str_pairs(ps@), name@) is None,
        },
{
    let mut i: usize = 0;
    while i < ps.len()
        invariant
            i <= ps@.len(),
            forall|j: int| 0 <= j < i ==> (#[trigger] view_str_pairs(ps@)[j]).0 != name@,
        decreases ps@.len() - i,
    {
        proof {
            assert(view_str_pairs(ps@)[i as int] == (ps@[i as int].0@, ps@[i as int].1@));
        }
        if str_eq(ps[i].0.as_str(), name) {
            proof {
                lemma_find_param_at(view_str_pairs(ps@), name@, i as int);
            }
            return Option::Some(ps[i].1.clone());
        }
        i = i + 1;
    }
    proof {
        lemma_find_param_none(view_str_pairs(ps@), name@);
    }
    Option::None
}

/// The pairs whose key opens with the two given characters, that prefix
/// stripped.
pub open spec fn spec_strip_prefixed(
    ps: Seq<(Seq<char>, Seq<char>)>,
    c0: char,
    c1: char,
) -> Seq<(Seq<char>, Seq<char>)>
    decreases ps.len(),
{
    if ps.len() == 0 {
        Seq::empty()
    } else {
        let rest = spec_strip_prefixed(ps.skip(1), c0, c1);
        if ps[0].0.len() >= 2 && ps[0].0[0] == c0 && ps[0].0[1] == c1 {
            seq![(ps[0].0.skip(2), ps[0].1)] + rest
        } else {
            rest
        }
    }
}

/// Collects the pairs with a two-character key prefix, stripped; see
/// [`spec_strip_prefixed`].
pub fn strip_prefixed_pairs(ps: &Vec<(String, String)>, c0: char, c1: char) -> (r: Vec<
    (String, String)
>)
    ensures
        view_str_pairs(r@) == spec_strip_prefixed(view_str_pairs(ps@), c0, c1),
{
    let mut out: Vec<(String, String)> = Vec::new();
    let mut i: usize = 0;
    proof {
        assert(view_str_pairs(ps@).skip(0) =~= view_str_pairs(ps@));
        assert(view_str_pairs(out@) =~= Seq::<(Seq<char>, Seq<char>)>::empty());
    }
    while i < ps.len()
        invariant
            i <= ps@.len(),
            spec_strip_prefixed(view_str_pairs(ps@), c0, c1) == view_str_pairs(out@)
                + spec_strip_prefixed(view_str_pairs(ps@).skip(i as int), c0, c1),
        decreases ps@.len() - i,
    {
        let ghost pv = view_str_pairs(ps@);
        proof {
            assert(pv.skip(i as int)[0] == pv[i as int]);
            assert(pv.skip(i as int).skip(1) =~= pv.skip(i + 1));
            assert(pv[i as int] == (ps@[i as int].0@, ps@[i as int].1@));
        }
        let key = &ps[i].0;
        let klen = key.as_str().unicode_len();
        let ghost prev = out@;
        if klen >= 2 && key.as_str().get_char(0) == c0 && key.as_str().get_char(1) == c1 {
            let stripped = key.as_str().substring_char(2, klen).to_owned();
            let value = ps[i].1.clone();
            out.push((stripped, value));
            proof {
                assert(stripped@ =~= pv[i as int].0.skip(2));
                assert(view_str_pairs(out@) =~= view_str_pairs(prev) + seq![
                    (pv[i as int].0.skip(2), pv[i as int].1),
                ]);
            }
        }
        proof {
            assert(spec_strip_prefixed(pv, c0, c1) =~= view_str_pairs(out@)
                + spec_strip_prefixed(pv.skip(i + 1), c0, c1));
        }
        i = i + 1;
    }
    proof {
        assert(view_str_pairs(ps@).skip(ps@.len() as int) =~= Seq::<(Seq<char>, Seq<char>)>::empty());
    }
    out
}

} // verus!
