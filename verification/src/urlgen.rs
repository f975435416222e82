//! The URL generator: turns a caller descriptor into either a signed-query
//! URL or an encrypted-token URL, the inverse of the request authorizer.

use vstd::prelude::*;

use crate::encryption::{
    spec_derive_key, spec_payload_of, spec_token_payload, view_opt_string,
    view_str_pairs, EncryptionHandler, ProxyData, ProxyDataView,
};
use crate::json::spec_payload_json;
use crate::error::AppError;
use crate::models::{GenerateUrlRequest, GenerateUrlRequestView};
use crate::query::{percent_encode, spec_percent_encode};
use vstd::string::StrSliceExecFns;
use vstd::string::StringExecFns;
use vstd::utf8::{decode_utf8, encode_utf8, valid_utf8};

verus! {

pub const QMARK: u8 = 0x3f;

// ---------------------------------------------------------------------------
// Joining base and endpoint.
// ---------------------------------------------------------------------------
/// The text without its trailing occurrences of one byte.
pub open spec fn spec_trim_trailing(s: Seq<u8>, b: u8) -> Seq<u8>
    decreases s.len(),
{
    if s.len() > 0 && s[s.len() - 1] == b {
        spec_trim_trailing(s.drop_last(), b)
    } else {
        s
    }
}

/// The text without its leading occurrences of one byte.
pub open spec fn spec_trim_leading(s: Seq<u8>, b: u8) -> Seq<u8>
    decreases s.len(),
{
    if s.len() > 0 && s[0] == b {
        spec_trim_leading(s.skip(1), b)
    } else {
        s
    }
}

/// The generated URL's base: the proxy URL, with the endpoint appended
/// behind exactly one slash when one is named.
pub open spec fn spec_base_url_bytes(req: GenerateUrlRequestView) -> Seq<u8> {
    match req.endpoint {
        Option::None => encode_utf8(req.mediaflow_proxy_url),
        Option::Some(e) => spec_trim_trailing(encode_utf8(req.mediaflow_proxy_url), 0x2f)
            + seq![0x2fu8] + spec_trim_leading(encode_utf8(e), 0x2f),
    }
}

proof fn lemma_trim_trailing_is(s: Seq<u8>, b: u8, end: int)
    requires
        0 <= end <= s.len(),
        forall|j: int| end <= j < s.len() ==> s[j] == b,
        end > 0 ==> s[end - 1] != b,
    ensures
        spec_trim_trailing(s, b) == s.take(end),
    decreases s.len(),
{
    if s.len() > 0 && s[s.len() - 1] == b {
        assert(end < s.len());
        assert(forall|j: int| end <= j < s.len() - 1 ==> #[trigger] s.drop_last()[j] == s[j]);
        if end > 0 {
            assert(s.drop_last()[end - 1] == s[end - 1]);
        }
        lemma_trim_trailing_is(s.drop_last(), b, end);
        assert(s.drop_last().take(end) =~= s.take(end));
    } else {
        assert(end == s.len()) by {
            if end < s.len() {
                assert(s[s.len() - 1] == b);
            }
        }
        assert(s.take(end) =~= s);
    }
}

proof fn lemma_trim_leading_is(s: Seq<u8>, b: u8, start: int)
    requires
        0 <= start <= s.len(),
        forall|j: int| 0 <= j < start ==> s[j] == b,
        start < s.len() ==> s[start] != b,
    ensures
        spec_trim_leading(s, b) == s.skip(start),
    decreases s.len(),
{
    if s.len() > 0 && s[0] == b {
        assert(start > 0);
        assert(forall|j: int| 0 <= j < s.len() - 1 ==> #[trigger] s.skip(1)[j] == s[j + 1]);
        lemma_trim_leading_is(s.skip(1), b, start - 1);
        assert(s.skip(1).skip(start - 1) =~= s.skip(start));
    } else {
        assert(start == 0);
        assert(s.skip(0) =~= s);
    }
}

fn trim_trailing(s: &[u8], b: u8) -> (r: Vec<u8>)
    ensures
        r@ == spec_trim_trailing(s@, b),
{
    let mut end: usize = s.len();
    while end > 0 && s[end - 1] == b
        invariant
            end <= s@.len(),
            forall|j: int| end <= j < s@.len() ==> s@[j] == b,
        decreases end,
    {
        end = end - 1;
    }
    proof {
        lemma_trim_trailing_is(s@, b, end as int);
    }
    let r = vstd::slice::slice_to_vec(&s[0..end]);
    proof {
        assert(r@ =~= s@.take(end as int));
    }
    r
}

fn trim_leading(s: &[u8], b: u8) -> (r: Vec<u8>)
    ensures
        r@ == spec_trim_leading(s@, b),
{
    let mut start: usize = 0;
    while start < s.len() && s[start] == b
        invariant
            start <= s@.len(),
            forall|j: int| 0 <= j < start ==> s@[j] == b,
        decreases s@.len() - start,
    {
        start = start + 1;
    }
    proof {
        lemma_trim_leading_is(s@, b, start as int);
    }
    let r = vstd::slice::slice_to_vec(&s[start..s.len()]);
    proof {
        assert(r@ =~= s@.skip(start as int));
    }
    r
}

fn base_url_bytes(req: &GenerateUrlRequest) -> (r: Vec<u8>)
    ensures
        r@ == spec_base_url_bytes(req@),
{
    match &req.endpoint {
        Option::None => req.mediaflow_proxy_url.as_str().as_bytes_vec(),
        Option::Some(e) => {
            let mut out = trim_trailing(req.mediaflow_proxy_url.as_str().as_bytes(), 0x2f);
            out.push(0x2f);
            let tail = trim_leading(e.as_str().as_bytes(), 0x2f);
            out.extend_from_slice(tail.as_slice());
            proof {
                assert(out@ =~= spec_base_url_bytes(req@));
            }
            out
        },
    }
}

// ---------------------------------------------------------------------------
// Parameter lists.
// ---------------------------------------------------------------------------
/// Sets a key to a value: replaces the first pair of that key in place, or
/// appends one.
pub open spec fn spec_set_param(
    ps: Seq<(Seq<char>, Seq<char>)>,
    name: Seq<char>,
    value: Seq<char>,
) -> Seq<(Seq<char>, Seq<char>)>
    decreases ps.len(),
{
    if ps.len() == 0 {
        seq![(name, value)]
    } else if ps[0].0 == name {
        seq![(name, value)] + ps.skip(1)
    } else {
        seq![ps[0]] + spec_set_param(ps.skip(1), name, value)
    }
}

fn set_param(ps: Vec<(String, String)>, name: &str, value: String) -> (r: Vec<(String, String)>)
    ensures
        view_str_pairs(r@) == spec_set_param(view_str_pairs(ps@), name@, value@),
{
    let mut out = ps;
    let mut i: usize = 0;
    while i < out.len()
        invariant
            i <= out@.len(),
            forall|j: int| 0 <= j < i ==> (#[trigger] view_str_pairs(out@)[j]).0 != name@,
            view_str_pairs(out@) == view_str_pairs(ps@),
        decreases out@.len() - i,
    {
        proof {
            assert(view_str_pairs(out@)[i as int] == (out@[i as int].0@, out@[i as int].1@));
        }
        if crate::query::str_eq(out[i].0.as_str(), name) {
            let ghost prev = view_str_pairs(out@);
            out.set(i, (name.to_owned(), value));
            proof {
                lemma_set_param_at(prev, name@, value@, i as int);
                assert(view_str_pairs(out@) =~= prev.update(i as int, (name@, value@)));
            }
            return out;
        }
        i = i + 1;
    }
    let ghost prev = view_str_pairs(out@);
    out.push((name.to_owned(), value));
    proof {
        lemma_set_param_none(prev, name@, value@);
        assert(view_str_pairs(out@) =~= prev.push((name@, value@)));
    }
    out
}

proof fn lemma_set_param_at(
    ps: Seq<(Seq<char>, Seq<char>)>,
    name: Seq<char>,
    value: Seq<char>,
    i: int,
)
    requires
        0 <= i < ps.len(),
        ps[i].0 == name,
        forall|j: int| 0 <= j < i ==> (#[trigger] ps[j]).0 != name,
    ensures
        spec_set_param(ps, name, value) == ps.update(i, (name, value)),
    decreases i,
{
    if i == 0 {
        assert(spec_set_param(ps, name, value) =~= ps.update(0, (name, value)));
    } else {
        assert(forall|j: int| 0 <= j < ps.len() - 1 ==> #[trigger] ps.skip(1)[j] == ps[j + 1]);
        lemma_set_param_at(ps.skip(1), name, value, i - 1);
        assert(spec_set_param(ps, name, value) =~= ps.update(i, (name, value)));
    }
}

proof fn lemma_set_param_none(ps: Seq<(Seq<char>, Seq<char>)>, name: Seq<char>, value: Seq<char>)
    requires
        forall|j: int| 0 <= j < ps.len() ==> (#[trigger] ps[j]).0 != name,
    ensures
        spec_set_param(ps, name, value) == ps.push((name, value)),
    decreases ps.len(),
{
    if ps.len() == 0 {
        assert(spec_set_param(ps, name, value) =~= ps.push((name, value)));
    } else {
        assert(forall|j: int| 0 <= j < ps.len() - 1 ==> #[trigger] ps.skip(1)[j] == ps[j + 1]);
        lemma_set_param_none(ps.skip(1), name, value);
        assert(spec_set_param(ps, name, value) =~= ps.push((name, value)));
    }
}

fn dup_pairs(ps: &Vec<(String, String)>) -> (r: Vec<(String, String)>)
    ensures
        view_str_pairs(r@) == view_str_pairs(ps@),
        r@.len() == ps@.len(),
{
    let mut out: Vec<(String, String)> = Vec::new();
    let mut i: usize = 0;
    while i < ps.len()
        invariant
            i <= ps@.len(),
            out@.len() == i,
            forall|j: int|
                0 <= j < i ==> #[trigger] out@[j].0@ == ps@[j].0@ && out@[j].1@ == ps@[j].1@,
        decreases ps@.len() - i,
    {
        out.push((ps[i].0.clone(), ps[i].1.clone()));
        i = i + 1;
    }
    proof {
        assert(view_str_pairs(out@) =~= view_str_pairs(ps@));
    }
    out
}

/// Sets every pair of `hdrs` under a two-character key prefix.
pub open spec fn spec_add_prefixed(
    ps: Seq<(Seq<char>, Seq<char>)>,
    hdrs: Seq<(Seq<char>, Seq<char>)>,
    c0: char,
    c1: char,
) -> Seq<(Seq<char>, Seq<char>)>
    decreases hdrs.len(),
{
    if hdrs.len() == 0 {
        ps
    } else {
        spec_add_prefixed(
            spec_set_param(ps, seq![c0, c1] + hdrs[0].0, hdrs[0].1),
            hdrs.skip(1),
            c0,
            c1,
        )
    }
}

fn add_prefixed(
    ps: Vec<(String, String)>,
    hdrs: &Vec<(String, String)>,
    pre: &str,
    Ghost(c0): Ghost<char>,
    Ghost(c1): Ghost<char>,
) -> (r: Vec<(String, String)>)
    requires
        pre@ == seq![c0, c1],
    ensures
        view_str_pairs(r@) == spec_add_prefixed(view_str_pairs(ps@), view_str_pairs(hdrs@), c0, c1),
{
    let mut out = ps;
    let mut i: usize = 0;
    proof {
        assert(view_str_pairs(hdrs@).skip(0) =~= view_str_pairs(hdrs@));
    }
    while i < hdrs.len()
        invariant
            i <= hdrs@.len(),
            pre@ == seq![c0, c1],
            spec_add_prefixed(view_str_pairs(ps@), view_str_pairs(hdrs@), c0, c1)
                == spec_add_prefixed(
                view_str_pairs(out@),
                view_str_pairs(hdrs@).skip(i as int),
                c0,
                c1,
            ),
        decreases hdrs@.len() - i,
    {
        let ghost hv = view_str_pairs(hdrs@);
        proof {
            assert(hv.skip(i as int)[0] == hv[i as int]);
            assert(hv.skip(i as int).skip(1) =~= hv.skip(i + 1));
            assert(hv[i as int] == (hdrs@[i as int].0@, hdrs@[i as int].1@));
        }
        let mut key = pre.to_owned();
        key.append(hdrs[i].0.as_str());
        let value = hdrs[i].1.clone();
        out = set_param(out, key.as_str(), value);
        i = i + 1;
    }
    proof {
        assert(view_str_pairs(hdrs@).skip(hdrs@.len() as int) =~= Seq::<
            (Seq<char>, Seq<char>),
        >::empty());
    }
    out
}

// ---------------------------------------------------------------------------
// Query-string rendering.
// ---------------------------------------------------------------------------
/// One rendered pair: the key verbatim, `=`, the percent-encoded value.
pub open spec fn spec_qs_entry(k: Seq<char>, v: Seq<char>) -> Seq<u8> {
    encode_utf8(k) + seq![0x3du8] + spec_percent_encode(encode_utf8(v))
}

/// The rendered pairs joined with `&`.
pub open spec fn spec_query_string(ps: Seq<(Seq<char>, Seq<char>)>) -> Seq<u8>
    decreases ps.len(),
{
    if ps.len() == 0 {
        Seq::empty()
    } else if ps.len() == 1 {
        spec_qs_entry(ps[0].0, ps[0].1)
    } else {
        spec_qs_entry(ps[0].0, ps[0].1) + seq![0x26u8] + spec_query_string(ps.skip(1))
    }
}

fn build_query_string(ps: &Vec<(String, String)>) -> (r: Vec<u8>)
    ensures
        r@ == spec_query_string(view_str_pairs(ps@)),
{
    let mut out: Vec<u8> = Vec::new();
    let mut i: usize = 0;
    while i < ps.len()
        invariant
            i <= ps@.len(),
            out@ == spec_query_string(view_str_pairs(ps@).take(i as int)),
        decreases ps@.len() - i,
    {
        if i > 0 {
            out.push(0x26);
        }
        let kb = ps[i].0.as_str().as_bytes_vec();
        out.extend_from_slice(kb.as_slice());
        out.push(0x3d);
        let vb = ps[i].1.as_str().as_bytes_vec();
        let enc = percent_encode(vb.as_slice());
        out.extend_from_slice(enc.as_slice());
        proof {
            let pv = view_str_pairs(ps@);
            assert(pv[i as int] == (ps@[i as int].0@, ps@[i as int].1@));
            lemma_query_string_snoc(pv, i as int);
            assert(out@ =~= spec_query_string(pv.take(i + 1)));
        }
        i = i + 1;
    }
    proof {
        assert(view_str_pairs(ps@).take(ps@.len() as int) =~= view_str_pairs(ps@));
    }
    out
}

proof fn lemma_query_string_snoc(ps: Seq<(Seq<char>, Seq<char>)>, i: int)
    requires
        0 <= i < ps.len(),
    ensures
        i == 0 ==> spec_query_string(ps.take(1)) == spec_qs_entry(ps[0].0, ps[0].1),
        i > 0 ==> spec_query_string(ps.take(i + 1)) == spec_query_string(ps.take(i))
            + seq![0x26u8] + spec_qs_entry(ps[i].0, ps[i].1),
    decreases i,
{
    if i == 0 {
        assert(ps.take(1).len() == 1);
        assert(ps.take(1)[0] == ps[0]);
    } else {
        lemma_query_string_snoc(ps.skip(1), i - 1);
        assert(ps.take(i + 1).skip(1) =~= ps.skip(1).take(i));
        assert(ps.take(i).skip(1) =~= ps.skip(1).take(i - 1));
        assert(ps.take(i + 1)[0] == ps[0]);
        assert(ps.take(i)[0] == ps[0]);
        assert(ps.skip(1)[i - 1] == ps[i]);
        if i == 1 {
            assert(spec_query_string(ps.take(2)) == spec_qs_entry(ps[0].0, ps[0].1)
                + seq![0x26u8] + spec_query_string(ps.take(2).skip(1)));
        } else {
            assert(spec_query_string(ps.take(i + 1)) == spec_qs_entry(ps[0].0, ps[0].1)
                + seq![0x26u8] + spec_query_string(ps.take(i + 1).skip(1)));
            assert(spec_query_string(ps.take(i)) == spec_qs_entry(ps[0].0, ps[0].1)
                + seq![0x26u8] + spec_query_string(ps.take(i).skip(1)));
            assert((spec_qs_entry(ps[0].0, ps[0].1) + seq![0x26u8] + (spec_query_string(
                ps.skip(1).take(i - 1),
            ) + seq![0x26u8] + spec_qs_entry(ps.skip(1)[i - 1].0, ps.skip(1)[i - 1].1))) =~= (
            spec_qs_entry(ps[0].0, ps[0].1) + seq![0x26u8] + spec_query_string(
                ps.skip(1).take(i - 1),
            )) + seq![0x26u8] + spec_qs_entry(ps[i].0, ps[i].1));
        }
    }
}

// ---------------------------------------------------------------------------
// The generator.
// ---------------------------------------------------------------------------
/// The descriptor carried inside a generated token: the destination, the
/// caller's parameters with the password set, the header overrides, the
/// expiry at `now` plus the requested lifetime (saturating), and the
/// address binding.
pub open spec fn spec_token_data(req: GenerateUrlRequestView, now: u64) -> ProxyDataView {
    ProxyDataView {
        destination: req.destination_url,
        query_params: Option::Some(
            match req.api_password {
                Option::Some(pw) => spec_set_param(req.query_params, "api_password"@, pw),
                Option::None => req.query_params,
            },
        ),
        request_headers: Option::Some(req.request_headers),
        response_headers: Option::Some(req.response_headers),
        exp: match req.expiration {
            Option::Some(e) => Option::Some(
                if now + e > u64::MAX {
                    u64::MAX
                } else {
                    (now + e) as u64
                },
            ),
            Option::None => Option::None,
        },
        ip: req.ip,
    }
}

/// The parameters of a signed URL: the caller's parameters with `d` set to
/// the destination and the header overrides set under `h_` and `r_`.
pub open spec fn spec_signed_params(req: GenerateUrlRequestView) -> Seq<(Seq<char>, Seq<char>)> {
    spec_add_prefixed(
        spec_add_prefixed(
            spec_set_param(req.query_params, "d"@, req.destination_url),
            req.request_headers,
            'h',
            '_',
        ),
        req.response_headers,
        'r',
        '_',
    )
}

/// The bytes of a signed URL.
pub open spec fn spec_signed_url_bytes(req: GenerateUrlRequestView) -> Seq<u8> {
    spec_base_url_bytes(req) + seq![QMARK] + spec_query_string(spec_signed_params(req))
}

/// The text of a token URL for a given token.
pub open spec fn spec_token_url_chars(req: GenerateUrlRequestView, token: Seq<char>) -> Seq<char> {
    decode_utf8(spec_base_url_bytes(req)) + "?token="@ + token
}

/// Builds the URL a caller descriptor asks for, at an explicit time.
///
/// With a password the URL carries an encrypted token whose payload is
/// exactly [`spec_token_data`]; without one it carries the signed query of
/// [`spec_signed_params`].
pub fn generate_url_at(req: &GenerateUrlRequest, now: u64) -> (r: Result<String, AppError>)
    ensures
        req@.api_password matches Option::Some(pw) ==> match r {
            Result::Ok(u) => exists|token: Seq<char>|
                u@ == spec_token_url_chars(req@, token) && #[trigger] spec_token_payload(
                    token,
                    spec_derive_key(encode_utf8(pw)),
                ) == Option::Some(spec_payload_of(spec_token_data(req@, now))),
            Result::Err(_) => !valid_utf8(spec_base_url_bytes(req@)) || spec_payload_json(
                spec_payload_of(spec_token_data(req@, now)),
            ).len() + 16 > usize::MAX,
        },
        req@.api_password is None ==> match r {
            Result::Ok(u) => valid_utf8(spec_signed_url_bytes(req@)) && u@ == decode_utf8(
                spec_signed_url_bytes(req@),
            ),
            Result::Err(_) => !valid_utf8(spec_signed_url_bytes(req@)),
        },
{
    let base = base_url_bytes(req);
    match &req.api_password {
        Option::Some(pw) => {
            let handler = match EncryptionHandler::new(pw.as_str().as_bytes()) {
                Result::Ok(h) => h,
                Result::Err(e) => {
                    return Result::Err(e);
                },
            };
            let exp = match req.expiration {
                Option::Some(e) => Option::Some(
                    if now > u64::MAX - e {
                        u64::MAX
                    } else {
                        now + e
                    },
                ),
                Option::None => Option::None,
            };
            let query_params = set_param(dup_pairs(&req.query_params), "api_password", pw.clone());
            let data = ProxyData {
                destination: req.destination_url.clone(),
                query_params: Option::Some(query_params),
                request_headers: Option::Some(dup_pairs(&req.request_headers)),
                response_headers: Option::Some(dup_pairs(&req.response_headers)),
                exp,
                ip: match &req.ip {
                    Option::Some(ip) => Option::Some(ip.clone()),
                    Option::None => Option::None,
                },
            };
            proof {
                assert(data@ == spec_token_data(req@, now));
            }
            let token = match handler.encrypt(&data) {
                Result::Ok(t) => t,
                Result::Err(e) => {
                    return Result::Err(e);
                },
            };
            let mut url = match crate::cipher::bytes_to_string(base) {
                Option::Some(s) => s,
                Option::None => {
                    return Result::Err(
                        AppError::Internal(String::from_str("base URL is not UTF-8")),
                    );
                },
            };
            url.append("?token=");
            url.append(token.as_str());
            Result::Ok(url)
        },
        Option::None => {
            let params = set_param(dup_pairs(&req.query_params), "d", req.destination_url.clone());
            proof {
                reveal_strlit("h_");
                reveal_strlit("r_");
                assert("h_"@ =~= seq!['h', '_']);
                assert("r_"@ =~= seq!['r', '_']);
            }
            let params = add_prefixed(
                params,
                &req.request_headers,
                "h_",
                Ghost('h'),
                Ghost('_'),
            );
            let params = add_prefixed(
                params,
                &req.response_headers,
                "r_",
                Ghost('r'),
                Ghost('_'),
            );
            let qs = build_query_string(&params);
            let mut url_bytes = base;
            url_bytes.push(QMARK);
            url_bytes.extend_from_slice(qs.as_slice());
            proof {
                assert(url_bytes@ =~= spec_signed_url_bytes(req@));
            }
            match crate::cipher::bytes_to_string(url_bytes) {
                Option::Some(s) => Result::Ok(s),
                Option::None => Result::Err(
                    AppError::Internal(String::from_str("generated URL is not UTF-8")),
                ),
            }
        },
    }
}

/// A token generated with a relative lifetime expires: decrypting it at
/// any moment after its absolute expiry yields `Expired`, whatever the
/// observed address.
pub proof fn lemma_generated_token_expires(
    token: Seq<char>,
    key: Seq<u8>,
    req: GenerateUrlRequestView,
    gen_now: u64,
    now: u64,
    client_ip: Option<Seq<char>>,
)
    requires
        spec_token_payload(token, key) == Option::Some(
            spec_payload_of(spec_token_data(req, gen_now)),
        ),
        req.expiration matches Option::Some(e) && gen_now + e <= u64::MAX && now > gen_now + e,
    ensures
        crate::encryption::spec_decrypt_at(token, key, client_ip, now) == Result::Err::<
            crate::encryption::ProxyDataView,
            crate::encryption::TokenError,
        >(crate::encryption::TokenError::Expired),
{
    crate::encryption::lemma_decrypt_expired(
        token,
        key,
        spec_token_data(req, gen_now),
        client_ip,
        now,
    );
}

/// Builds the URL a caller descriptor asks for, at the present moment.
pub fn generate_url(req: &GenerateUrlRequest) -> (r: Result<String, AppError>)
    ensures
        req@.api_password matches Option::Some(pw) ==> match r {
            Result::Ok(u) => exists|token: Seq<char>, now: u64|
                #![trigger spec_token_payload(token, spec_derive_key(encode_utf8(pw))), spec_token_data(req@, now)]
                u@ == spec_token_url_chars(req@, token) && spec_token_payload(
                    token,
                    spec_derive_key(encode_utf8(pw)),
                ) == Option::Some(spec_payload_of(spec_token_data(req@, now))),
            Result::Err(_) => !valid_utf8(spec_base_url_bytes(req@)) || exists|now: u64|
                spec_payload_json(spec_payload_of(#[trigger] spec_token_data(req@, now))).len()
                    + 16 > usize::MAX,
        },
        req@.api_password is None ==> match r {
            Result::Ok(u) => valid_utf8(spec_signed_url_bytes(req@)) && u@ == decode_utf8(
                spec_signed_url_bytes(req@),
            ),
            Result::Err(_) => !valid_utf8(spec_signed_url_bytes(req@)),
        },
{
    let now = crate::clock::now_unix_secs();
    generate_url_at(req, now)
}

} // verus!
