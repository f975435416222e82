//! The header rules of the relay: the fixed whitelists that cross the
//! boundary, the RFC 7230 validity checks, and the composition of upstream
//! and override headers. Header lists are ordered name–value byte pairs;
//! stored names are lower-case.

use vstd::prelude::*;

use crate::encryption::{utf8_pairs, view_str_pairs, ProxyData};
use crate::error::AppError;
use crate::json::view_pairs;
use vstd::string::StrSliceExecFns;
use vstd::string::StringExecFns;

verus! {

/// Which part of a header an error concerns.
#[derive(Debug, PartialEq, Eq, Structural, Clone, Copy)]
pub enum HeaderError {
    Name,
    Value,
}

impl HeaderError {
    pub open spec fn spec_message(self) -> Seq<char> {
        match self {
            HeaderError::Name => "Invalid header name"@,
            HeaderError::Value => "Invalid header value"@,
        }
    }

    pub open spec fn matches_app_error(self, e: AppError) -> bool {
        e matches AppError::Internal(m) && m@ == self.spec_message()
    }

    pub fn to_app_error(self) -> (r: AppError)
        ensures
            self.matches_app_error(r),
    {
        match self {
            HeaderError::Name => AppError::Internal(String::from_str("Invalid header name")),
            HeaderError::Value => AppError::Internal(String::from_str("Invalid header value")),
        }
    }
}

// ---------------------------------------------------------------------------
// Byte classes and case folding.
// ---------------------------------------------------------------------------
/// ASCII lower-casing of one byte.
pub open spec fn spec_lower_byte(b: u8) -> u8 {
    if 0x41 <= b <= 0x5a {
        (b + 0x20) as u8
    } else {
        b
    }
}

pub open spec fn spec_lower(s: Seq<u8>) -> Seq<u8> {
    Seq::new(s.len(), |i: int| spec_lower_byte(s[i]))
}

fn lower_bytes(s: &[u8]) -> (r: Vec<u8>)
    ensures
        r@ == spec_lower(s@),
{
    let mut out: Vec<u8> = Vec::new();
    let mut i: usize = 0;
    while i < s.len()
        invariant
            i <= s@.len(),
            out@.len() == i,
            forall|j: int| 0 <= j < i ==> out@[j] == spec_lower_byte(#[trigger] s@[j]),
        decreases s@.len() - i,
    {
        let b = s[i];
        if 0x41 <= b && b <= 0x5a {
            out.push(b + 0x20);
        } else {
            out.push(b);
        }
        i = i + 1;
    }
    proof {
        assert(out@ =~= spec_lower(s@));
    }
    out
}

/// RFC 7230 `tchar`: the bytes allowed in a header name.
pub open spec fn is_tchar(b: u8) -> bool {
    ||| (0x30 <= b <= 0x39)  // digit
    ||| (0x41 <= b <= 0x5a)  // upper
    ||| (0x61 <= b <= 0x7a)  // lower
    ||| b == 0x21 || b == 0x23 || b == 0x24 || b == 0x25 || b == 0x26 || b == 0x27
    ||| b == 0x2a || b == 0x2b || b == 0x2d || b == 0x2e || b == 0x5e || b == 0x5f
    ||| b == 0x60 || b == 0x7c || b == 0x7e
}

/// A valid header name: nonempty, all `tchar`.
pub open spec fn spec_valid_header_name(s: Seq<u8>) -> bool {
    s.len() > 0 && forall|i: int| 0 <= i < s.len() ==> is_tchar(#[trigger] s[i])
}

/// A valid header value byte: tab, visible ASCII, space, or high bytes.
pub open spec fn is_value_byte(b: u8) -> bool {
    b == 0x09 || (0x20 <= b <= 0x7e) || b >= 0x80
}

pub open spec fn spec_valid_header_value(s: Seq<u8>) -> bool {
    forall|i: int| 0 <= i < s.len() ==> is_value_byte(#[trigger] s[i])
}

pub fn valid_header_name(s: &[u8]) -> (r: bool)
    ensures
        r == spec_valid_header_name(s@),
{
    if s.len() == 0 {
        return false;
    }
    let mut i: usize = 0;
    while i < s.len()
        invariant
            i <= s@.len(),
            forall|j: int| 0 <= j < i ==> is_tchar(#[trigger] s@[j]),
        decreases s@.len() - i,
    {
        let b = s[i];
        let ok = (0x30 <= b && b <= 0x39) || (0x41 <= b && b <= 0x5a) || (0x61 <= b && b <= 0x7a)
            || b == 0x21 || b == 0x23 || b == 0x24 || b == 0x25 || b == 0x26 || b == 0x27 || b
            == 0x2a || b == 0x2b || b == 0x2d || b == 0x2e || b == 0x5e || b == 0x5f || b == 0x60
            || b == 0x7c || b == 0x7e;
        if !ok {
            return false;
        }
        i = i + 1;
    }
    true
}

pub fn valid_header_value(s: &[u8]) -> (r: bool)
    ensures
        r == spec_valid_header_value(s@),
{
    let mut i: usize = 0;
    while i < s.len()
        invariant
            i <= s@.len(),
            forall|j: int| 0 <= j < i ==> is_value_byte(#[trigger] s@[j]),
        decreases s@.len() - i,
    {
        let b = s[i];
        if !(b == 0x09 || (0x20 <= b && b <= 0x7e) || b >= 0x80) {
            return false;
        }
        i = i + 1;
    }
    true
}

// ---------------------------------------------------------------------------
// The whitelists.
// ---------------------------------------------------------------------------
/// `range`
pub open spec fn spec_hn_range() -> Seq<u8> {
    seq![0x72u8, 0x61, 0x6e, 0x67, 0x65]
}

/// `if-range`
pub open spec fn spec_hn_if_range() -> Seq<u8> {
    seq![0x69u8, 0x66, 0x2d, 0x72, 0x61, 0x6e, 0x67, 0x65]
}

/// The request headers copied from the client verbatim.
pub open spec fn spec_request_whitelist() -> Seq<Seq<u8>> {
    seq![spec_hn_range(), spec_hn_if_range()]
}

/// `accept-ranges`
pub open spec fn spec_hn_accept_ranges() -> Seq<u8> {
    seq![0x61u8, 0x63, 0x63, 0x65, 0x70, 0x74, 0x2d, 0x72, 0x61, 0x6e, 0x67, 0x65, 0x73]
}

/// `content-type`
pub open spec fn spec_hn_content_type() -> Seq<u8> {
    seq![0x63u8, 0x6f, 0x6e, 0x74, 0x65, 0x6e, 0x74, 0x2d, 0x74, 0x79, 0x70, 0x65]
}

/// `content-length`
pub open spec fn spec_hn_content_length() -> Seq<u8> {
    seq![0x63u8, 0x6f, 0x6e, 0x74, 0x65, 0x6e, 0x74, 0x2d, 0x6c, 0x65, 0x6e, 0x67, 0x74, 0x68]
}

/// `content-range`
pub open spec fn spec_hn_content_range() -> Seq<u8> {
    seq![0x63u8, 0x6f, 0x6e, 0x74, 0x65, 0x6e, 0x74, 0x2d, 0x72, 0x61, 0x6e, 0x67, 0x65]
}

/// `connection`
pub open spec fn spec_hn_connection() -> Seq<u8> {
    seq![0x63u8, 0x6f, 0x6e, 0x6e, 0x65, 0x63, 0x74, 0x69, 0x6f, 0x6e]
}

/// `transfer-encoding`
pub open spec fn spec_hn_transfer_encoding() -> Seq<u8> {
    seq![0x74u8, 0x72, 0x61, 0x6e, 0x73, 0x66, 0x65, 0x72, 0x2d, 0x65, 0x6e, 0x63, 0x6f, 0x64, 0x69, 0x6e, 0x67]
}

/// `last-modified`
pub open spec fn spec_hn_last_modified() -> Seq<u8> {
    seq![0x6cu8, 0x61, 0x73, 0x74, 0x2d, 0x6d, 0x6f, 0x64, 0x69, 0x66, 0x69, 0x65, 0x64]
}

/// `etag`
pub open spec fn spec_hn_etag() -> Seq<u8> {
    seq![0x65u8, 0x74, 0x61, 0x67]
}

/// `cache-control`
pub open spec fn spec_hn_cache_control() -> Seq<u8> {
    seq![0x63u8, 0x61, 0x63, 0x68, 0x65, 0x2d, 0x63, 0x6f, 0x6e, 0x74, 0x72, 0x6f, 0x6c]
}

/// `expires`
pub open spec fn spec_hn_expires() -> Seq<u8> {
    seq![0x65u8, 0x78, 0x70, 0x69, 0x72, 0x65, 0x73]
}

/// The response headers copied from the upstream response downstream.
pub open spec fn spec_response_whitelist() -> Seq<Seq<u8>> {
    seq![
        spec_hn_accept_ranges(),
        spec_hn_content_type(),
        spec_hn_content_length(),
        spec_hn_content_range(),
        spec_hn_connection(),
        spec_hn_transfer_encoding(),
        spec_hn_last_modified(),
        spec_hn_etag(),
        spec_hn_cache_control(),
        spec_hn_expires(),
    ]
}

fn request_whitelist() -> (r: Vec<Vec<u8>>)
    ensures
        r@.len() == spec_request_whitelist().len(),
        forall|i: int| 0 <= i < r@.len() ==> #[trigger] r@[i]@ == spec_request_whitelist()[i],
{
    let mut out: Vec<Vec<u8>> = Vec::new();
    let n1: Vec<u8> = vec![0x72u8, 0x61, 0x6e, 0x67, 0x65];
    assert(n1@ =~= spec_hn_range());
    out.push(n1);
    let n2: Vec<u8> = vec![0x69u8, 0x66, 0x2d, 0x72, 0x61, 0x6e, 0x67, 0x65];
    assert(n2@ =~= spec_hn_if_range());
    out.push(n2);
    out
}

fn response_whitelist() -> (r: Vec<Vec<u8>>)
    ensures
        r@.len() == spec_response_whitelist().len(),
        forall|i: int| 0 <= i < r@.len() ==> #[trigger] r@[i]@ == spec_response_whitelist()[i],
{
    let mut out: Vec<Vec<u8>> = Vec::new();
    let n1: Vec<u8> = vec![0x61u8, 0x63, 0x63, 0x65, 0x70, 0x74, 0x2d, 0x72, 0x61, 0x6e, 0x67, 0x65, 0x73];
    assert(n1@ =~= spec_hn_accept_ranges());
    out.push(n1);
    let n2: Vec<u8> = vec![0x63u8, 0x6f, 0x6e, 0x74, 0x65, 0x6e, 0x74, 0x2d, 0x74, 0x79, 0x70, 0x65];
    assert(n2@ =~= spec_hn_content_type());
    out.push(n2);
    let n3: Vec<u8> = vec![0x63u8, 0x6f, 0x6e, 0x74, 0x65, 0x6e, 0x74, 0x2d, 0x6c, 0x65, 0x6e, 0x67, 0x74, 0x68];
    assert(n3@ =~= spec_hn_content_length());
    out.push(n3);
    let n4: Vec<u8> = vec![0x63u8, 0x6f, 0x6e, 0x74, 0x65, 0x6e, 0x74, 0x2d, 0x72, 0x61, 0x6e, 0x67, 0x65];
    assert(n4@ =~= spec_hn_content_range());
    out.push(n4);
    let n5: Vec<u8> = vec![0x63u8, 0x6f, 0x6e, 0x6e, 0x65, 0x63, 0x74, 0x69, 0x6f, 0x6e];
    assert(n5@ =~= spec_hn_connection());
    out.push(n5);
    let n6: Vec<u8> = vec![0x74u8, 0x72, 0x61, 0x6e, 0x73, 0x66, 0x65, 0x72, 0x2d, 0x65, 0x6e, 0x63, 0x6f, 0x64, 0x69, 0x6e, 0x67];
    assert(n6@ =~= spec_hn_transfer_encoding());
    out.push(n6);
    let n7: Vec<u8> = vec![0x6cu8, 0x61, 0x73, 0x74, 0x2d, 0x6d, 0x6f, 0x64, 0x69, 0x66, 0x69, 0x65, 0x64];
    assert(n7@ =~= spec_hn_last_modified());
    out.push(n7);
    let n8: Vec<u8> = vec![0x65u8, 0x74, 0x61, 0x67];
    assert(n8@ =~= spec_hn_etag());
    out.push(n8);
    let n9: Vec<u8> = vec![0x63u8, 0x61, 0x63, 0x68, 0x65, 0x2d, 0x63, 0x6f, 0x6e, 0x74, 0x72, 0x6f, 0x6c];
    assert(n9@ =~= spec_hn_cache_control());
    out.push(n9);
    let n10: Vec<u8> = vec![0x65u8, 0x78, 0x70, 0x69, 0x72, 0x65, 0x73];
    assert(n10@ =~= spec_hn_expires());
    out.push(n10);
    out
}

// ---------------------------------------------------------------------------
// Lookup and overlay over ordered name-value lists.
// ---------------------------------------------------------------------------
/// The first entry whose lower-cased name equals `name` (itself lower-case).
pub open spec fn spec_find_header(hs: Seq<(Seq<u8>, Seq<u8>)>, name: Seq<u8>) -> Option<int>
    decreases hs.len(),
{
    if hs.len() == 0 {
        Option::None
    } else if spec_lower(hs[0].0) == name {
        Option::Some(0int)
    } else {
        match spec_find_header(hs.skip(1), name) {
            Option::Some(i) => Option::Some(i + 1),
            Option::None => Option::None,
        }
    }
}

proof fn lemma_find_header_range(hs: Seq<(Seq<u8>, Seq<u8>)>, name: Seq<u8>)
    ensures
        match spec_find_header(hs, name) {
            Option::Some(i) => 0 <= i < hs.len() && spec_lower(hs[i].0) == name && forall|j: int|
                0 <= j < i ==> spec_lower(#[trigger] hs[j].0) != name,
            Option::None => forall|j: int|
                0 <= j < hs.len() ==> spec_lower(#[trigger] hs[j].0) != name,
        },
    decreases hs.len(),
{
    if hs.len() == 0 {
    } else if spec_lower(hs[0].0) == name {
    } else {
        lemma_find_header_range(hs.skip(1), name);
        match spec_find_header(hs.skip(1), name) {
            Option::Some(i) => {
                assert(hs.skip(1)[i] == hs[i + 1]);
                assert forall|j: int| 0 <= j < i + 1 implies spec_lower(#[trigger] hs[j].0)
                    != name by {
                    if j > 0 {
                        assert(hs.skip(1)[j - 1] == hs[j]);
                    }
                }
            },
            Option::None => {
                assert forall|j: int| 0 <= j < hs.len() implies spec_lower(#[trigger] hs[j].0)
                    != name by {
                    if j > 0 {
                        assert(hs.skip(1)[j - 1] == hs[j]);
                    }
                }
            },
        }
    }
}

fn bytes_eq(a: &[u8], b: &[u8]) -> (r: bool)
    ensures
        r == (a@ == b@),
{
    if a.len() != b.len() {
        return false;
    }
    let mut p: usize = 0;
    while p < a.len()
        invariant
            p <= a@.len(),
            a@.len() == b@.len(),
            forall|q: int| 0 <= q < p ==> a@[q] == b@[q],
        decreases a@.len() - p,
    {
        if a[p] != b[p] {
            return false;
        }
        p = p + 1;
    }
    proof {
        assert(a@ =~= b@);
    }
    true
}

/// Finds a header by lower-cased name, mirroring [`spec_find_header`].
fn find_header(hs: &Vec<(Vec<u8>, Vec<u8>)>, name: &[u8]) -> (r: Option<usize>)
    ensures
        match r {
            Option::Some(i) => spec_find_header(view_pairs(hs@), name@) == Option::Some(i as int)
                && i < hs@.len(),
            Option::None => spec_find_header(view_pairs(hs@), name@) is None,
        },
{
    let mut i: usize = 0;
    while i < hs.len()
        invariant
            i <= hs@.len(),
            forall|j: int| 0 <= j < i ==> spec_lower(#[trigger] view_pairs(hs@)[j].0) != name@,
        decreases hs@.len() - i,
    {
        let low = lower_bytes(hs[i].0.as_slice());
        proof {
            assert(view_pairs(hs@)[i as int].0 == hs@[i as int].0@);
        }
        if bytes_eq(low.as_slice(), name) {
            proof {
                lemma_find_header_at(view_pairs(hs@), name@, i as int);
            }
            return Option::Some(i);
        }
        i = i + 1;
    }
    proof {
        lemma_find_header_none(view_pairs(hs@), name@);
    }
    Option::None
}

pub proof fn lemma_find_header_at(hs: Seq<(Seq<u8>, Seq<u8>)>, name: Seq<u8>, i: int)
    requires
        0 <= i < hs.len(),
        spec_lower(hs[i].0) == name,
        forall|j: int| 0 <= j < i ==> spec_lower(#[trigger] hs[j].0) != name,
    ensures
        spec_find_header(hs, name) == Option::Some(i),
    decreases i,
{
    if i == 0 {
    } else {
        lemma_find_header_at(hs.skip(1), name, i - 1);
        assert(forall|j: int| 0 <= j < i - 1 ==> #[trigger] hs.skip(1)[j] == hs[j + 1]);
        assert(hs.skip(1)[i - 1] == hs[i]);
    }
}

pub proof fn lemma_find_header_none(hs: Seq<(Seq<u8>, Seq<u8>)>, name: Seq<u8>)
    requires
        forall|j: int| 0 <= j < hs.len() ==> spec_lower(#[trigger] hs[j].0) != name,
    ensures
        spec_find_header(hs, name) is None,
    decreases hs.len(),
{
    if hs.len() == 0 {
    } else {
        assert(forall|j: int| 0 <= j < hs.len() - 1 ==> #[trigger] hs.skip(1)[j] == hs[j + 1]);
        lemma_find_header_none(hs.skip(1), name);
    }
}

/// Sets a name to a value: replaces the first entry of that name or
/// appends a new one. Names handed in are already lower-case.
pub open spec fn spec_upsert(
    hs: Seq<(Seq<u8>, Seq<u8>)>,
    name: Seq<u8>,
    value: Seq<u8>,
) -> Seq<(Seq<u8>, Seq<u8>)> {
    match spec_find_header(hs, name) {
        Option::Some(i) => hs.update(i, (name, value)),
        Option::None => hs.push((name, value)),
    }
}

/// The base of the downstream response: the whitelisted upstream headers in
/// whitelist order, each taken from the first upstream entry of that name
/// and only when its value is valid.
pub open spec fn spec_response_base_from(
    wl: Seq<Seq<u8>>,
    up: Seq<(Seq<u8>, Seq<u8>)>,
) -> Seq<(Seq<u8>, Seq<u8>)>
    decreases wl.len(),
{
    if wl.len() == 0 {
        Seq::empty()
    } else {
        let rest = spec_response_base_from(wl.skip(1), up);
        match spec_find_header(up, wl[0]) {
            Option::Some(i) => if spec_valid_header_value(up[i].1) {
                seq![(wl[0], up[i].1)] + rest
            } else {
                rest
            },
            Option::None => rest,
        }
    }
}

pub open spec fn spec_response_base(up: Seq<(Seq<u8>, Seq<u8>)>) -> Seq<(Seq<u8>, Seq<u8>)> {
    spec_response_base_from(spec_response_whitelist(), up)
}

/// The request base: the whitelisted client headers in whitelist order;
/// an invalid value is a fault rather than an omission.
pub open spec fn spec_request_base_from(
    wl: Seq<Seq<u8>>,
    inc: Seq<(Seq<u8>, Seq<u8>)>,
) -> Result<Seq<(Seq<u8>, Seq<u8>)>, HeaderError>
    decreases wl.len(),
{
    if wl.len() == 0 {
        Result::Ok(Seq::empty())
    } else {
        match spec_request_base_from(wl.skip(1), inc) {
            Result::Err(e) => Result::Err(e),
            Result::Ok(rest) => match spec_find_header(inc, wl[0]) {
                Option::Some(i) => if spec_valid_header_value(inc[i].1) {
                    Result::Ok(seq![(wl[0], inc[i].1)] + rest)
                } else {
                    Result::Err(HeaderError::Value)
                },
                Option::None => Result::Ok(rest),
            },
        }
    }
}

/// Overlays override pairs onto a header list, last write winning;
/// override names are lower-cased and both parts are validated.
pub open spec fn spec_apply_overrides(
    hs: Seq<(Seq<u8>, Seq<u8>)>,
    ov: Seq<(Seq<u8>, Seq<u8>)>,
) -> Result<Seq<(Seq<u8>, Seq<u8>)>, HeaderError>
    decreases ov.len(),
{
    if ov.len() == 0 {
        Result::Ok(hs)
    } else {
        let name = spec_lower(ov[0].0);
        if !spec_valid_header_name(name) {
            Result::Err(HeaderError::Name)
        } else if !spec_valid_header_value(ov[0].1) {
            Result::Err(HeaderError::Value)
        } else {
            spec_apply_overrides(spec_upsert(hs, name, ov[0].1), ov.skip(1))
        }
    }
}

/// The upstream request headers for a descriptor: the whitelisted client
/// headers overlaid with the descriptor's request overrides.
pub open spec fn spec_compose_request(
    inc: Seq<(Seq<u8>, Seq<u8>)>,
    ov: Seq<(Seq<u8>, Seq<u8>)>,
) -> Result<Seq<(Seq<u8>, Seq<u8>)>, HeaderError> {
    match spec_request_base_from(spec_request_whitelist(), inc) {
        Result::Err(e) => Result::Err(e),
        Result::Ok(base) => spec_apply_overrides(base, ov),
    }
}

/// The downstream response headers: the whitelisted upstream headers
/// overlaid with the descriptor's response overrides.
pub open spec fn spec_compose_response(
    up: Seq<(Seq<u8>, Seq<u8>)>,
    ov: Seq<(Seq<u8>, Seq<u8>)>,
) -> Result<Seq<(Seq<u8>, Seq<u8>)>, HeaderError> {
    spec_apply_overrides(spec_response_base(up), ov)
}

fn upsert(hs: &mut Vec<(Vec<u8>, Vec<u8>)>, name: Vec<u8>, value: Vec<u8>)
    ensures
        view_pairs(final(hs)@) == spec_upsert(view_pairs(old(hs)@), name@, value@),
{
    match find_header(hs, name.as_slice()) {
        Option::Some(i) => {
            hs.set(i, (name, value));
            proof {
                assert(view_pairs(hs@) =~= spec_upsert(view_pairs(old(hs)@), name@, value@));
            }
        },
        Option::None => {
            hs.push((name, value));
            proof {
                assert(view_pairs(hs@) =~= spec_upsert(view_pairs(old(hs)@), name@, value@));
            }
        },
    }
}

fn apply_overrides(hs: &mut Vec<(Vec<u8>, Vec<u8>)>, ov: &Vec<(String, String)>) -> (r: Result<
    (),
    HeaderError,
>)
    ensures
        match r {
            Result::Ok(_) => spec_apply_overrides(
                view_pairs(old(hs)@),
                utf8_pairs(view_str_pairs(ov@)),
            ) == Result::Ok::<_, HeaderError>(view_pairs(final(hs)@)),
            Result::Err(e) => spec_apply_overrides(
                view_pairs(old(hs)@),
                utf8_pairs(view_str_pairs(ov@)),
            ) == Result::Err::<Seq<(Seq<u8>, Seq<u8>)>, HeaderError>(e),
        },
{
    let ghost ovv = utf8_pairs(view_str_pairs(ov@));
    proof {
        assert(ovv.skip(0) =~= ovv);
    }
    let mut i: usize = 0;
    while i < ov.len()
        invariant
            i <= ov@.len(),
            ovv == utf8_pairs(view_str_pairs(ov@)),
            spec_apply_overrides(view_pairs(old(hs)@), ovv) == spec_apply_overrides(
                view_pairs(hs@),
                ovv.skip(i as int),
            ),
        decreases ov@.len() - i,
    {
        let kb = ov[i].0.as_str().as_bytes_vec();
        let vb = ov[i].1.as_str().as_bytes_vec();
        let name = lower_bytes(kb.as_slice());
        proof {
            assert(ovv.skip(i as int)[0] == ovv[i as int]);
            assert(ovv[i as int].0 == kb@ && ovv[i as int].1 == vb@);
        }
        if !valid_header_name(name.as_slice()) {
            return Result::Err(HeaderError::Name);
        }
        if !valid_header_value(vb.as_slice()) {
            return Result::Err(HeaderError::Value);
        }
        upsert(hs, name, vb);
        proof {
            assert(ovv.skip(i as int).skip(1) =~= ovv.skip(i + 1));
        }
        i = i + 1;
    }
    proof {
        assert(ovv.skip(ov@.len() as int) =~= Seq::<(Seq<u8>, Seq<u8>)>::empty());
    }
    Result::Ok(())
}

/// Builds the upstream request headers from the client's headers and the
/// descriptor's overrides; see [`spec_compose_request`].
pub fn compose_request_headers(incoming: &Vec<(Vec<u8>, Vec<u8>)>, data: &ProxyData) -> (r: Result<
    Vec<(Vec<u8>, Vec<u8>)>,
    AppError,
>)
    ensures
        match r {
            Result::Ok(hs) => spec_compose_request(
                view_pairs(incoming@),
                spec_request_overrides(data@),
            ) == Result::Ok::<_, HeaderError>(view_pairs(hs@)),
            Result::Err(e) => spec_compose_request(
                view_pairs(incoming@),
                spec_request_overrides(data@),
            ) matches Result::Err(he) && he.matches_app_error(e),
        },
{
    let wl = request_whitelist();
    let mut base: Vec<(Vec<u8>, Vec<u8>)> = Vec::new();
    let ghost incv = view_pairs(incoming@);
    let mut w: usize = wl.len();
    proof {
        assert(spec_request_whitelist().skip(w as int) =~= Seq::<Seq<u8>>::empty());
        assert(view_pairs(base@) =~= Seq::<(Seq<u8>, Seq<u8>)>::empty());
    }
    while w > 0
        invariant
            w <= wl@.len(),
            wl@.len() == spec_request_whitelist().len(),
            forall|i: int|
                0 <= i < wl@.len() ==> #[trigger] wl@[i]@ == spec_request_whitelist()[i],
            incv == view_pairs(incoming@),
            spec_request_base_from(spec_request_whitelist().skip(w as int), incv)
                == Result::Ok::<_, HeaderError>(view_pairs(base@)),
        decreases w,
    {
        w = w - 1;
        match find_header(incoming, wl[w].as_slice()) {
            Option::Some(i) => {
                let value = vstd::slice::slice_to_vec(incoming[i].1.as_slice());
                if !valid_header_value(value.as_slice()) {
                    proof {
                        assert(spec_request_whitelist().skip(w as int).skip(1) =~= spec_request_whitelist().skip(w + 1));
                        assert(spec_request_whitelist().skip(w as int)[0]
                            == spec_request_whitelist()[w as int]);
                        assert(spec_request_base_from(spec_request_whitelist().skip(w as int), incv)
                            == Result::Err::<Seq<(Seq<u8>, Seq<u8>)>, HeaderError>(
                            HeaderError::Value,
                        ));
                        lemma_request_base_err_lifts(spec_request_whitelist(), incv, w as int);
                    }
                    return Result::Err(HeaderError::Value.to_app_error());
                }
                let name = vstd::slice::slice_to_vec(wl[w].as_slice());
                let ghost prev = base@;
                base.insert(0, (name, value));
                proof {
                    assert(spec_request_whitelist().skip(w as int).skip(1) =~= spec_request_whitelist().skip(w + 1));
                    assert(spec_request_whitelist().skip(w as int)[0]
                        == spec_request_whitelist()[w as int]);
                    assert(view_pairs(base@) =~= seq![
                        (spec_request_whitelist()[w as int], incv[i as int].1),
                    ] + view_pairs(prev));
                }
            },
            Option::None => {
                proof {
                    assert(spec_request_whitelist().skip(w as int).skip(1) =~= spec_request_whitelist().skip(w + 1));
                    assert(spec_request_whitelist().skip(w as int)[0]
                        == spec_request_whitelist()[w as int]);
                }
            },
        }
    }
    proof {
        assert(spec_request_whitelist().skip(0) =~= spec_request_whitelist());
    }
    let empty_overrides: Vec<(String, String)> = Vec::new();
    let ov_result = match &data.request_headers {
        Option::Some(ov) => apply_overrides(&mut base, ov),
        Option::None => apply_overrides(&mut base, &empty_overrides),
    };
    proof {
        if data@.request_headers is None {
            assert(utf8_pairs(view_str_pairs(empty_overrides@)) =~= spec_request_overrides(
                data@,
            ));
        }
    }
    match ov_result {
        Result::Ok(_) => Result::Ok(base),
        Result::Err(e) => Result::Err(e.to_app_error()),
    }
}

/// The request override pairs a descriptor carries, as bytes; none means
/// no overrides.
pub open spec fn spec_request_overrides(d: crate::encryption::ProxyDataView) -> Seq<
    (Seq<u8>, Seq<u8>),
> {
    match d.request_headers {
        Option::Some(ps) => crate::encryption::utf8_pairs(ps),
        Option::None => Seq::empty(),
    }
}

/// The response override pairs a descriptor carries, as bytes.
pub open spec fn spec_response_overrides(d: crate::encryption::ProxyDataView) -> Seq<
    (Seq<u8>, Seq<u8>),
> {
    match d.response_headers {
        Option::Some(ps) => crate::encryption::utf8_pairs(ps),
        Option::None => Seq::empty(),
    }
}

proof fn lemma_request_base_err_lifts(wl: Seq<Seq<u8>>, inc: Seq<(Seq<u8>, Seq<u8>)>, w: int)
    requires
        0 <= w < wl.len(),
        spec_request_base_from(wl.skip(w), inc) is Err,
    ensures
        spec_request_base_from(wl, inc) == spec_request_base_from(wl.skip(w), inc),
    decreases w,
{
    if w == 0 {
        assert(wl.skip(0) =~= wl);
    } else {
        assert(wl.skip(w - 1).skip(1) =~= wl.skip(w));
        assert(wl.skip(w - 1)[0] == wl[w - 1]);
        lemma_request_base_err_lifts(wl, inc, w - 1);
    }
}

/// Builds the downstream response headers from the upstream's headers and
/// the descriptor's overrides; see [`spec_compose_response`].
pub fn compose_response_headers(upstream: &Vec<(Vec<u8>, Vec<u8>)>, data: &ProxyData) -> (r:
    Result<Vec<(Vec<u8>, Vec<u8>)>, AppError>)
    ensures
        match r {
            Result::Ok(hs) => spec_compose_response(
                view_pairs(upstream@),
                spec_response_overrides(data@),
            ) == Result::Ok::<_, HeaderError>(view_pairs(hs@)),
            Result::Err(e) => spec_compose_response(
                view_pairs(upstream@),
                spec_response_overrides(data@),
            ) matches Result::Err(he) && he.matches_app_error(e),
        },
{
    let wl = response_whitelist();
    let mut base: Vec<(Vec<u8>, Vec<u8>)> = Vec::new();
    let ghost upv = view_pairs(upstream@);
    let mut w: usize = wl.len();
    proof {
        assert(spec_response_whitelist().skip(w as int) =~= Seq::<Seq<u8>>::empty());
        assert(view_pairs(base@) =~= Seq::<(Seq<u8>, Seq<u8>)>::empty());
    }
    while w > 0
        invariant
            w <= wl@.len(),
            wl@.len() == spec_response_whitelist().len(),
            forall|i: int|
                0 <= i < wl@.len() ==> #[trigger] wl@[i]@ == spec_response_whitelist()[i],
            upv == view_pairs(upstream@),
            spec_response_base_from(spec_response_whitelist().skip(w as int), upv) == view_pairs(
                base@,
            ),
        decreases w,
    {
        w = w - 1;
        match find_header(upstream, wl[w].as_slice()) {
            Option::Some(i) => {
                let value = vstd::slice::slice_to_vec(upstream[i].1.as_slice());
                if valid_header_value(value.as_slice()) {
                    let name = vstd::slice::slice_to_vec(wl[w].as_slice());
                    let ghost prev = base@;
                    base.insert(0, (name, value));
                    proof {
                        assert(spec_response_whitelist().skip(w as int).skip(1) =~= spec_response_whitelist().skip(w + 1));
                        assert(spec_response_whitelist().skip(w as int)[0]
                            == spec_response_whitelist()[w as int]);
                        assert(view_pairs(base@) =~= seq![
                            (spec_response_whitelist()[w as int], upv[i as int].1),
                        ] + view_pairs(prev));
                    }
                } else {
                    proof {
                        assert(spec_response_whitelist().skip(w as int).skip(1) =~= spec_response_whitelist().skip(w + 1));
                        assert(spec_response_whitelist().skip(w as int)[0]
                            == spec_response_whitelist()[w as int]);
                    }
                }
            },
            Option::None => {
                proof {
                    assert(spec_response_whitelist().skip(w as int).skip(1) =~= spec_response_whitelist().skip(w + 1));
                    assert(spec_response_whitelist().skip(w as int)[0]
                        == spec_response_whitelist()[w as int]);
                }
            },
        }
    }
    proof {
        assert(spec_response_whitelist().skip(0) =~= spec_response_whitelist());
    }
    let empty_overrides: Vec<(String, String)> = Vec::new();
    let ov_result = match &data.response_headers {
        Option::Some(ov) => apply_overrides(&mut base, ov),
        Option::None => apply_overrides(&mut base, &empty_overrides),
    };
    proof {
        if data@.response_headers is None {
            assert(utf8_pairs(view_str_pairs(empty_overrides@)) =~= spec_response_overrides(
                data@,
            ));
        }
    }
    match ov_result {
        Result::Ok(_) => Result::Ok(base),
        Result::Err(e) => Result::Err(e.to_app_error()),
    }
}

pub open spec fn wl_contains(wl: Seq<Seq<u8>>, w: Seq<u8>) -> bool {
    exists|i: int| 0 <= i < wl.len() && wl[i] == w
}

pub open spec fn wl_distinct(wl: Seq<Seq<u8>>) -> bool {
    forall|p: int, q: int| 0 <= p < q < wl.len() ==> wl[p] != wl[q]
}

pub open spec fn wl_lowercase(wl: Seq<Seq<u8>>) -> bool {
    forall|i: int| 0 <= i < wl.len() ==> spec_lower(#[trigger] wl[i]) == wl[i]
}

/// Every name of a whitelist base comes from the whitelist.
proof fn lemma_base_names_in(wl: Seq<Seq<u8>>, up: Seq<(Seq<u8>, Seq<u8>)>)
    ensures
        forall|j: int|
            0 <= j < spec_response_base_from(wl, up).len() ==> wl_contains(
                wl,
                (#[trigger] spec_response_base_from(wl, up)[j]).0,
            ),
    decreases wl.len(),
{
    if wl.len() == 0 {
    } else {
        lemma_base_names_in(wl.skip(1), up);
        let base = spec_response_base_from(wl, up);
        let rest = spec_response_base_from(wl.skip(1), up);
        assert forall|j: int| 0 <= j < base.len() implies wl_contains(
            wl,
            (#[trigger] base[j]).0,
        ) by {
            let included = match spec_find_header(up, wl[0]) {
                Option::Some(i) => spec_valid_header_value(up[i].1),
                Option::None => false,
            };
            if included {
                if j == 0 {
                    assert(base[0].0 == wl[0]);
                } else {
                    assert(base[j] == rest[j - 1]);
                    let i = choose|i: int|
                        0 <= i < wl.skip(1).len() && wl.skip(1)[i] == rest[j - 1].0;
                    assert(wl[i + 1] == rest[j - 1].0);
                }
            } else {
                assert(base[j] == rest[j]);
                let i = choose|i: int| 0 <= i < wl.skip(1).len() && wl.skip(1)[i] == rest[j].0;
                assert(wl[i + 1] == rest[j].0);
            }
        }
    }
}

/// What a name lookup finds in a whitelist base: the upstream value when
/// the upstream has the name with a valid value, nothing otherwise.
proof fn lemma_base_lookup(wl: Seq<Seq<u8>>, up: Seq<(Seq<u8>, Seq<u8>)>, w: Seq<u8>)
    requires
        wl_distinct(wl),
        wl_lowercase(wl),
        wl_contains(wl, w),
    ensures
        match spec_find_header(up, w) {
            Option::Some(i) => if spec_valid_header_value(up[i].1) {
                spec_find_header(spec_response_base_from(wl, up), w) matches Option::Some(k)
                    && 0 <= k < spec_response_base_from(wl, up).len()
                    && spec_response_base_from(wl, up)[k] == (w, up[i].1)
            } else {
                spec_find_header(spec_response_base_from(wl, up), w) is None
            },
            Option::None => spec_find_header(spec_response_base_from(wl, up), w) is None,
        },
    decreases wl.len(),
{
    let base = spec_response_base_from(wl, up);
    let rest = spec_response_base_from(wl.skip(1), up);
    assert(wl.len() > 0);
    assert(spec_lower(w) == w) by {
        let i = choose|i: int| 0 <= i < wl.len() && wl[i] == w;
    }
    if wl[0] == w {
        match spec_find_header(up, w) {
            Option::Some(i) => {
                lemma_find_header_range(up, w);
                if spec_valid_header_value(up[i].1) {
                    assert(base == seq![(w, up[i].1)] + rest);
                    assert(base[0] == (w, up[i].1));
                    assert(spec_lower(base[0].0) == w);
                } else {
                    assert(base == rest);
                    lemma_base_names_in(wl.skip(1), up);
                    assert forall|j: int| 0 <= j < rest.len() implies spec_lower(
                        (#[trigger] rest[j]).0,
                    ) != w by {
                        let i2 = choose|i2: int|
                            0 <= i2 < wl.skip(1).len() && wl.skip(1)[i2] == rest[j].0;
                        assert(wl[i2 + 1] == rest[j].0);
                        assert(wl[i2 + 1] != wl[0]);
                        assert(spec_lower(rest[j].0) == rest[j].0);
                    }
                    lemma_find_header_none(rest, w);
                }
            },
            Option::None => {
                assert(base == rest);
                lemma_base_names_in(wl.skip(1), up);
                assert forall|j: int| 0 <= j < rest.len() implies spec_lower(
                    (#[trigger] rest[j]).0,
                ) != w by {
                    let i2 = choose|i2: int|
                        0 <= i2 < wl.skip(1).len() && wl.skip(1)[i2] == rest[j].0;
                    assert(wl[i2 + 1] == rest[j].0);
                    assert(wl[i2 + 1] != wl[0]);
                    assert(spec_lower(rest[j].0) == rest[j].0);
                }
                lemma_find_header_none(rest, w);
            },
        }
    } else {
        let wi = choose|i: int| 0 <= i < wl.len() && wl[i] == w;
        assert(wi > 0);
        assert(wl.skip(1)[wi - 1] == w);
        assert(wl_distinct(wl.skip(1))) by {
            assert(forall|p: int|
                0 <= p < wl.len() - 1 ==> #[trigger] wl.skip(1)[p] == wl[p + 1]);
        }
        assert(wl_lowercase(wl.skip(1))) by {
            assert(forall|p: int|
                0 <= p < wl.len() - 1 ==> #[trigger] wl.skip(1)[p] == wl[p + 1]);
        }
        lemma_base_lookup(wl.skip(1), up, w);
        let included = match spec_find_header(up, wl[0]) {
            Option::Some(i) => spec_valid_header_value(up[i].1),
            Option::None => false,
        };
        if included {
            let i0 = spec_find_header(up, wl[0])->Some_0;
            assert(base == seq![(wl[0], up[i0].1)] + rest);
            assert(base[0].0 == wl[0]);
            assert(spec_lower(base[0].0) == wl[0]);
            assert(wl[0] != w);
            assert(base.skip(1) =~= rest);
            match spec_find_header(rest, w) {
                Option::Some(k) => {
                    assert(base[k + 1] == rest[k]);
                },
                Option::None => {},
            }
        } else {
            assert(base == rest);
        }
    }
}

/// Filtering already-filtered headers changes nothing.
proof fn lemma_base_idem_from(wl2: Seq<Seq<u8>>, wl: Seq<Seq<u8>>, up: Seq<(Seq<u8>, Seq<u8>)>)
    requires
        wl_distinct(wl),
        wl_lowercase(wl),
        forall|k: int| 0 <= k < wl2.len() ==> wl_contains(wl, #[trigger] wl2[k]),
    ensures
        spec_response_base_from(wl2, spec_response_base_from(wl, up)) == spec_response_base_from(
            wl2,
            up,
        ),
    decreases wl2.len(),
{
    if wl2.len() == 0 {
    } else {
        let basefull = spec_response_base_from(wl, up);
        assert(forall|k: int|
            0 <= k < wl2.len() - 1 ==> #[trigger] wl2.skip(1)[k] == wl2[k + 1]);
        lemma_base_idem_from(wl2.skip(1), wl, up);
        let w = wl2[0];
        assert(wl_contains(wl, w));
        lemma_base_lookup(wl, up, w);
        match spec_find_header(up, w) {
            Option::Some(i) => {
                if spec_valid_header_value(up[i].1) {
                    let k = spec_find_header(basefull, w)->Some_0;
                    assert(basefull[k] == (w, up[i].1));
                } else {
                }
            },
            Option::None => {},
        }
    }
}

/// Header whitelist idempotence: passing a response through the whitelist
/// twice yields exactly what one pass yields, so relaying an already
/// relayed response changes nothing before the override pass.
pub proof fn lemma_response_base_idempotent(up: Seq<(Seq<u8>, Seq<u8>)>)
    ensures
        spec_response_base(spec_response_base(up)) == spec_response_base(up),
{
    let wl = spec_response_whitelist();
    lemma_response_whitelist_wf();
    assert(forall|k: int| 0 <= k < wl.len() ==> wl_contains(wl, #[trigger] wl[k]));
    lemma_base_idem_from(wl, wl, up);
}

/// The response whitelist holds ten distinct lower-case names.
pub proof fn lemma_response_whitelist_wf()
    ensures
        wl_distinct(spec_response_whitelist()),
        wl_lowercase(spec_response_whitelist()),
{
    let wl = spec_response_whitelist();
    assert forall|i: int| 0 <= i < wl.len() implies spec_lower(#[trigger] wl[i]) == wl[i] by {
        assert(spec_lower(spec_hn_accept_ranges()) =~= spec_hn_accept_ranges());
        assert(spec_lower(spec_hn_content_type()) =~= spec_hn_content_type());
        assert(spec_lower(spec_hn_content_length()) =~= spec_hn_content_length());
        assert(spec_lower(spec_hn_content_range()) =~= spec_hn_content_range());
        assert(spec_lower(spec_hn_connection()) =~= spec_hn_connection());
        assert(spec_lower(spec_hn_transfer_encoding()) =~= spec_hn_transfer_encoding());
        assert(spec_lower(spec_hn_last_modified()) =~= spec_hn_last_modified());
        assert(spec_lower(spec_hn_etag()) =~= spec_hn_etag());
        assert(spec_lower(spec_hn_cache_control()) =~= spec_hn_cache_control());
        assert(spec_lower(spec_hn_expires()) =~= spec_hn_expires());
    }
}

/// Determinism of the relay's response composition: the same upstream
/// headers and the same overrides always compose to the same downstream
/// headers.
pub proof fn lemma_response_composition_deterministic(
    up1: Seq<(Seq<u8>, Seq<u8>)>,
    up2: Seq<(Seq<u8>, Seq<u8>)>,
    ov: Seq<(Seq<u8>, Seq<u8>)>,
)
    requires
        up1 == up2,
    ensures
        spec_compose_response(up1, ov) == spec_compose_response(up2, ov),
{
}

} // verus!
