//! The process-wide configuration: server binding, proxy behaviour and the
//! shared secret, with the built-in defaults.

use vstd::prelude::*;

use crate::router::ProxyRouteConfig;
use vstd::string::StringExecFns;
use vstd::utf8::{decode_utf8, valid_utf8};

verus! {

/// Where the server listens and with how many workers.
#[derive(Debug, Clone)]
pub struct ServerConfig {
    pub host: String,
    pub port: u16,
    pub workers: usize,
}

/// How the relay reaches upstreams: handshake timeout, log cadence,
/// redirect policy, default forward proxy and the routing rules.
#[derive(Debug, Clone)]
pub struct ProxyConfig {
    pub connect_timeout: u64,
    pub buffer_size: usize,
    pub follow_redirects: bool,
    pub proxy_url: Option<String>,
    pub all_proxy: bool,
    pub transport_routes: Vec<(String, ProxyRouteConfig)>,
}

/// The shared secret; empty disables authentication.
#[derive(Debug, Clone)]
pub struct AuthConfig {
    pub api_password: String,
}

/// The immutable configuration record built once at startup.
#[derive(Debug, Clone)]
pub struct Config {
    pub server: ServerConfig,
    pub proxy: ProxyConfig,
    pub auth: AuthConfig,
}

impl Default for Config {
    /// The built-in defaults, overlaid by file and environment outside the
    /// library.
    fn default() -> (r: Self)
        ensures
            r.server.host@ == "127.0.0.1"@,
            r.server.port == 8888,
            r.server.workers == 4,
            r.proxy.connect_timeout == 30,
            r.proxy.buffer_size == 8192,
            r.proxy.follow_redirects,
            r.proxy.proxy_url is None,
            !r.proxy.all_proxy,
            r.proxy.transport_routes@.len() == 0,
            r.auth.api_password@ == "changeme"@,
    {
        Config {
            server: ServerConfig {
                host: String::from_str("127.0.0.1"),
                port: 8888,
                workers: 4,
            },
            proxy: ProxyConfig {
                connect_timeout: 30,
                buffer_size: 8192,
                follow_redirects: true,
                proxy_url: Option::None,
                all_proxy: false,
                transport_routes: Vec::new(),
            },
            auth: AuthConfig { api_password: String::from_str("changeme") },
        }
    }
}

// ---------------------------------------------------------------------------
// The routing rules as one JSON object.
// ---------------------------------------------------------------------------
// The deployment may hand the whole routing table over as a single JSON
// object mapping each pattern to `{"proxy":…,"proxy_url":…,"verify_ssl":…}`.
// Whitespace between tokens is accepted; rule fields may come in any order
// and may be left out, in which case a rule does not proxy, names no proxy
// URL and verifies TLS. A rule field outside the three known ones is
// refused deliberately, so a misspelt field surfaces at startup instead of
// silently configuring nothing.
/// Whether a byte is JSON whitespace.
pub open spec fn is_json_ws(b: u8) -> bool {
    b == 0x20 || b == 0x09 || b == 0x0a || b == 0x0d
}

/// The text without its leading whitespace.
pub open spec fn spec_ws(s: Seq<u8>) -> Seq<u8>
    decreases s.len(),
{
    if s.len() > 0 && is_json_ws(s[0]) {
        spec_ws(s.skip(1))
    } else {
        s
    }
}

pub proof fn lemma_ws_le(s: Seq<u8>)
    ensures
        spec_ws(s).len() <= s.len(),
    decreases s.len(),
{
    if s.len() > 0 && is_json_ws(s[0]) {
        lemma_ws_le(s.skip(1));
    }
}

proof fn lemma_ws_is(s: Seq<u8>, start: int)
    requires
        0 <= start <= s.len(),
        forall|j: int| 0 <= j < start ==> is_json_ws(#[trigger] s[j]),
        start < s.len() ==> !is_json_ws(s[start]),
    ensures
        spec_ws(s) == s.skip(start),
    decreases s.len(),
{
    if s.len() > 0 && is_json_ws(s[0]) {
        assert(start > 0);
        assert(forall|j: int| 0 <= j < s.len() - 1 ==> #[trigger] s.skip(1)[j] == s[j + 1]);
        lemma_ws_is(s.skip(1), start - 1);
        assert(s.skip(1).skip(start - 1) =~= s.skip(start));
    } else {
        assert(start == 0);
        assert(s.skip(0) =~= s);
    }
}

fn skip_ws<'a>(s: &'a [u8]) -> (r: &'a [u8])
    ensures
        r@ == spec_ws(s@),
{
    let mut start: usize = 0;
    while start < s.len() && (s[start] == 0x20 || s[start] == 0x09 || s[start] == 0x0a
        || s[start] == 0x0d)
        invariant
            start <= s@.len(),
            forall|j: int| 0 <= j < start ==> is_json_ws(#[trigger] s@[j]),
        decreases s@.len() - start,
    {
        start = start + 1;
    }
    proof {
        lemma_ws_is(s@, start as int);
    }
    crate::json::slice_skip(s, start)
}

/// `true`
pub open spec fn spec_lit_true() -> Seq<u8> {
    seq![0x74u8, 0x72, 0x75, 0x65]
}

/// `false`
pub open spec fn spec_lit_false() -> Seq<u8> {
    seq![0x66u8, 0x61, 0x6c, 0x73, 0x65]
}

/// `null`
pub open spec fn spec_lit_null() -> Seq<u8> {
    seq![0x6eu8, 0x75, 0x6c, 0x6c]
}

pub open spec fn spec_lit_prefix(s: Seq<u8>, p: Seq<u8>) -> bool {
    s.len() >= p.len() && s.take(p.len() as int) == p
}

/// Parses a `true` or `false` literal.
pub open spec fn spec_parse_bool(s: Seq<u8>) -> Option<(bool, Seq<u8>)> {
    if spec_lit_prefix(s, spec_lit_true()) {
        Option::Some((true, s.skip(4)))
    } else if spec_lit_prefix(s, spec_lit_false()) {
        Option::Some((false, s.skip(5)))
    } else {
        Option::None
    }
}

/// A rule under construction: whether to proxy, through what, and whether
/// to verify TLS.
pub open spec fn spec_default_rule() -> (bool, Option<Seq<u8>>, bool) {
    (false, Option::None, true)
}

/// `proxy`
pub open spec fn spec_key_proxy() -> Seq<u8> {
    seq![0x70u8, 0x72, 0x6f, 0x78, 0x79]
}

/// `proxy_url`
pub open spec fn spec_key_proxy_url() -> Seq<u8> {
    seq![0x70u8, 0x72, 0x6f, 0x78, 0x79, 0x5f, 0x75, 0x72, 0x6c]
}

/// `verify_ssl`
pub open spec fn spec_key_verify_ssl() -> Seq<u8> {
    seq![0x76u8, 0x65, 0x72, 0x69, 0x66, 0x79, 0x5f, 0x73, 0x73, 0x6c]
}

/// Parses the value of one rule field and applies it; an unknown field is
/// a fault.
pub open spec fn spec_parse_rule_value(
    key: Seq<u8>,
    s: Seq<u8>,
    cfg: (bool, Option<Seq<u8>>, bool),
) -> Option<((bool, Option<Seq<u8>>, bool), Seq<u8>)> {
    if key == spec_key_proxy() {
        match spec_parse_bool(s) {
            Option::Some((b, r)) => Option::Some(((b, cfg.1, cfg.2), r)),
            Option::None => Option::None,
        }
    } else if key == spec_key_verify_ssl() {
        match spec_parse_bool(s) {
            Option::Some((b, r)) => Option::Some(((cfg.0, cfg.1, b), r)),
            Option::None => Option::None,
        }
    } else if key == spec_key_proxy_url() {
        if spec_lit_prefix(s, spec_lit_null()) {
            Option::Some(((cfg.0, Option::None, cfg.2), s.skip(4)))
        } else {
            match crate::json::spec_parse_string(s) {
                Option::Some((u, r)) => Option::Some(((cfg.0, Option::Some(u), cfg.2), r)),
                Option::None => Option::None,
            }
        }
    } else {
        Option::None
    }
}

proof fn lemma_parse_rule_value_consumes(
    key: Seq<u8>,
    s: Seq<u8>,
    cfg: (bool, Option<Seq<u8>>, bool),
)
    ensures
        spec_parse_rule_value(key, s, cfg) matches Option::Some(p) ==> p.1.len() < s.len(),
{
    crate::json::lemma_parse_string_consumes(s);
}

/// Parses `"field":value` members of one rule up to its closing brace,
/// whitespace allowed between tokens.
pub open spec fn spec_parse_rule_members(s: Seq<u8>, cfg: (bool, Option<Seq<u8>>, bool)) -> Option<
    ((bool, Option<Seq<u8>>, bool), Seq<u8>),
>
    decreases s.len(),
    via spec_parse_rule_members_dec
{
    match crate::json::spec_parse_string(s) {
        Option::None => Option::None,
        Option::Some((key, r1)) => {
            let r1t = spec_ws(r1);
            if r1t.len() > 0 && r1t[0] == crate::json::COLON {
                match spec_parse_rule_value(key, spec_ws(r1t.skip(1)), cfg) {
                    Option::None => Option::None,
                    Option::Some((cfg2, r2)) => {
                        let r2t = spec_ws(r2);
                        if r2t.len() > 0 && r2t[0] == crate::json::COMMA {
                            spec_parse_rule_members(spec_ws(r2t.skip(1)), cfg2)
                        } else if r2t.len() > 0 && r2t[0] == crate::json::RBRACE {
                            Option::Some((cfg2, r2t.skip(1)))
                        } else {
                            Option::None
                        }
                    },
                }
            } else {
                Option::None
            }
        },
    }
}

#[via_fn]
proof fn spec_parse_rule_members_dec(s: Seq<u8>, cfg: (bool, Option<Seq<u8>>, bool)) {
    crate::json::lemma_parse_string_consumes(s);
    match crate::json::spec_parse_string(s) {
        Option::Some((key, r1)) => {
            lemma_ws_le(r1);
            let r1t = spec_ws(r1);
            if r1t.len() > 0 && r1t[0] == crate::json::COLON {
                lemma_ws_le(r1t.skip(1));
                lemma_parse_rule_value_consumes(key, spec_ws(r1t.skip(1)), cfg);
                match spec_parse_rule_value(key, spec_ws(r1t.skip(1)), cfg) {
                    Option::Some((cfg2, r2)) => {
                        lemma_ws_le(r2);
                        let r2t = spec_ws(r2);
                        if r2t.len() > 0 && r2t[0] == crate::json::COMMA {
                            lemma_ws_le(r2t.skip(1));
                        }
                    },
                    Option::None => {},
                }
            }
        },
        Option::None => {},
    }
}

/// Parses one rule object, whitespace allowed between tokens.
pub open spec fn spec_parse_rule(s: Seq<u8>) -> Option<((bool, Option<Seq<u8>>, bool), Seq<u8>)> {
    if s.len() >= 1 && s[0] == crate::json::LBRACE {
        let s1 = spec_ws(s.skip(1));
        if s1.len() >= 1 && s1[0] == crate::json::RBRACE {
            Option::Some((spec_default_rule(), s1.skip(1)))
        } else {
            spec_parse_rule_members(s1, spec_default_rule())
        }
    } else {
        Option::None
    }
}

proof fn lemma_parse_rule_members_consumes(s: Seq<u8>, cfg: (bool, Option<Seq<u8>>, bool))
    ensures
        spec_parse_rule_members(s, cfg) matches Option::Some(p) ==> p.1.len() < s.len(),
    decreases s.len(),
{
    crate::json::lemma_parse_string_consumes(s);
    match crate::json::spec_parse_string(s) {
        Option::Some((key, r1)) => {
            lemma_ws_le(r1);
            let r1t = spec_ws(r1);
            if r1t.len() > 0 && r1t[0] == crate::json::COLON {
                lemma_ws_le(r1t.skip(1));
                lemma_parse_rule_value_consumes(key, spec_ws(r1t.skip(1)), cfg);
                match spec_parse_rule_value(key, spec_ws(r1t.skip(1)), cfg) {
                    Option::Some((cfg2, r2)) => {
                        lemma_ws_le(r2);
                        let r2t = spec_ws(r2);
                        if r2t.len() > 0 && r2t[0] == crate::json::COMMA {
                            lemma_ws_le(r2t.skip(1));
                            lemma_parse_rule_members_consumes(spec_ws(r2t.skip(1)), cfg2);
                        }
                    },
                    Option::None => {},
                }
            }
        },
        Option::None => {},
    }
}

proof fn lemma_parse_rule_consumes(s: Seq<u8>)
    ensures
        spec_parse_rule(s) matches Option::Some(p) ==> p.1.len() < s.len(),
{
    if s.len() >= 1 && s[0] == crate::json::LBRACE {
        lemma_ws_le(s.skip(1));
        lemma_parse_rule_members_consumes(spec_ws(s.skip(1)), spec_default_rule());
    }
}

/// Parses `"pattern":{…}` members of the table up to its closing brace,
/// whitespace allowed between tokens.
pub open spec fn spec_parse_route_members(s: Seq<u8>) -> Option<
    (Seq<(Seq<u8>, (bool, Option<Seq<u8>>, bool))>, Seq<u8>),
>
    decreases s.len(),
    via spec_parse_route_members_dec
{
    match crate::json::spec_parse_string(s) {
        Option::None => Option::None,
        Option::Some((pat, r1)) => {
            let r1t = spec_ws(r1);
            if r1t.len() > 0 && r1t[0] == crate::json::COLON {
                match spec_parse_rule(spec_ws(r1t.skip(1))) {
                    Option::None => Option::None,
                    Option::Some((cfg, r2)) => {
                        let r2t = spec_ws(r2);
                        if r2t.len() > 0 && r2t[0] == crate::json::COMMA {
                            match spec_parse_route_members(spec_ws(r2t.skip(1))) {
                                Option::None => Option::None,
                                Option::Some((ps, r3)) => Option::Some(
                                    (seq![(pat, cfg)] + ps, r3),
                                ),
                            }
                        } else if r2t.len() > 0 && r2t[0] == crate::json::RBRACE {
                            Option::Some((seq![(pat, cfg)], r2t.skip(1)))
                        } else {
                            Option::None
                        }
                    },
                }
            } else {
                Option::None
            }
        },
    }
}

#[via_fn]
proof fn spec_parse_route_members_dec(s: Seq<u8>) {
    crate::json::lemma_parse_string_consumes(s);
    match crate::json::spec_parse_string(s) {
        Option::Some((pat, r1)) => {
            lemma_ws_le(r1);
            let r1t = spec_ws(r1);
            if r1t.len() > 0 && r1t[0] == crate::json::COLON {
                lemma_ws_le(r1t.skip(1));
                lemma_parse_rule_consumes(spec_ws(r1t.skip(1)));
                match spec_parse_rule(spec_ws(r1t.skip(1))) {
                    Option::Some((cfg, r2)) => {
                        lemma_ws_le(r2);
                        let r2t = spec_ws(r2);
                        if r2t.len() > 0 && r2t[0] == crate::json::COMMA {
                            lemma_ws_le(r2t.skip(1));
                        }
                    },
                    Option::None => {},
                }
            }
        },
        Option::None => {},
    }
}

/// Parses the whole routing table; besides whitespace, the input must be
/// consumed exactly.
pub open spec fn spec_parse_routes(s: Seq<u8>) -> Option<
    Seq<(Seq<u8>, (bool, Option<Seq<u8>>, bool))>,
> {
    let s0 = spec_ws(s);
    if s0.len() >= 1 && s0[0] == crate::json::LBRACE {
        let s1 = spec_ws(s0.skip(1));
        if s1.len() >= 1 && s1[0] == crate::json::RBRACE {
            if spec_ws(s1.skip(1)).len() == 0 {
                Option::Some(Seq::empty())
            } else {
                Option::None
            }
        } else {
            match spec_parse_route_members(s1) {
                Option::Some((ps, rest)) => if spec_ws(rest).len() == 0 {
                    Option::Some(ps)
                } else {
                    Option::None
                },
                Option::None => Option::None,
            }
        }
    } else {
        Option::None
    }
}

/// Whether every text of a parsed table is valid UTF-8.
pub open spec fn routes_utf8_ok(rs: Seq<(Seq<u8>, (bool, Option<Seq<u8>>, bool))>) -> bool {
    forall|i: int|
        0 <= i < rs.len() ==> valid_utf8((#[trigger] rs[i]).0) && match rs[i].1.1 {
            Option::Some(u) => valid_utf8(u),
            Option::None => true,
        }
}

/// Whether a rule list spells out a parsed table.
pub open spec fn routes_match(
    v: Seq<(String, ProxyRouteConfig)>,
    rs: Seq<(Seq<u8>, (bool, Option<Seq<u8>>, bool))>,
) -> bool {
    v.len() == rs.len() && forall|i: int|
        0 <= i < rs.len() ==> {
            &&& (#[trigger] v[i]).0@ == decode_utf8(rs[i].0)
            &&& v[i].1.proxy == rs[i].1.0
            &&& match (v[i].1.proxy_url, rs[i].1.1) {
                (Option::Some(u), Option::Some(b)) => u@ == decode_utf8(b),
                (Option::None, Option::None) => true,
                _ => false,
            }
            &&& v[i].1.verify_ssl == rs[i].1.2
        }
}

fn parse_bool_exec<'a>(s: &'a [u8]) -> (r: Option<(bool, &'a [u8])>)
    ensures
        match r {
            Option::Some(p) => spec_parse_bool(s@) == Option::Some((p.0, p.1@)),
            Option::None => spec_parse_bool(s@) is None,
        },
{
    let t: Vec<u8> = vec![0x74u8, 0x72, 0x75, 0x65];
    assert(t@ =~= spec_lit_true());
    if crate::json::has_prefix(s, t.as_slice()) {
        return Option::Some((true, crate::json::slice_skip(s, 4)));
    }
    let f: Vec<u8> = vec![0x66u8, 0x61, 0x6c, 0x73, 0x65];
    assert(f@ =~= spec_lit_false());
    if crate::json::has_prefix(s, f.as_slice()) {
        return Option::Some((false, crate::json::slice_skip(s, 5)));
    }
    Option::None
}

struct RuleAcc {
    proxy: bool,
    proxy_url: Option<Vec<u8>>,
    verify_ssl: bool,
}

impl RuleAcc {
    spec fn model(&self) -> (bool, Option<Seq<u8>>, bool) {
        (
            self.proxy,
            match self.proxy_url {
                Option::Some(u) => Option::Some(u@),
                Option::None => Option::None,
            },
            self.verify_ssl,
        )
    }
}

fn bytes_same(a: &[u8], b: &[u8]) -> (r: bool)
    ensures
        r == (a@ == b@),
{
    if a.len() != b.len() {
        return false;
    }
    let mut p: usize = 0;
    while p < a.len()
        invariant
            p <= a@.len(),
            a@.len() == b@.len(),
            forall|q: int| 0 <= q < p ==> a@[q] == b@[q],
        decreases a@.len() - p,
    {
        if a[p] != b[p] {
            return false;
        }
        p = p + 1;
    }
    proof {
        assert(a@ =~= b@);
    }
    true
}

fn parse_rule_members<'a>(s: &'a [u8], cfg: RuleAcc) -> (r: Option<(RuleAcc, &'a [u8])>)
    ensures
        match r {
            Option::Some(p) => spec_parse_rule_members(s@, cfg.model()) == Option::Some(
                (p.0.model(), p.1@),
            ),
            Option::None => spec_parse_rule_members(s@, cfg.model()) is None,
        },
    decreases s@.len(),
{
    let (key, r1) = match crate::json::parse_string(s) {
        Option::None => {
            return Option::None;
        },
        Option::Some(p) => p,
    };
    let r1t = skip_ws(r1);
    if !(r1t.len() > 0 && r1t[0] == crate::json::COLON) {
        return Option::None;
    }
    let vs = skip_ws(crate::json::slice_skip(r1t, 1));
    let kp: Vec<u8> = vec![0x70u8, 0x72, 0x6f, 0x78, 0x79];
    assert(kp@ =~= spec_key_proxy());
    let kv: Vec<u8> = vec![0x76u8, 0x65, 0x72, 0x69, 0x66, 0x79, 0x5f, 0x73, 0x73, 0x6c];
    assert(kv@ =~= spec_key_verify_ssl());
    let ku: Vec<u8> = vec![0x70u8, 0x72, 0x6f, 0x78, 0x79, 0x5f, 0x75, 0x72, 0x6c];
    assert(ku@ =~= spec_key_proxy_url());
    let step: Option<(RuleAcc, &[u8])> = if bytes_same(key.as_slice(), kp.as_slice()) {
        match parse_bool_exec(vs) {
            Option::Some((b, r)) => Option::Some(
                (RuleAcc { proxy: b, proxy_url: cfg.proxy_url, verify_ssl: cfg.verify_ssl }, r),
            ),
            Option::None => Option::None,
        }
    } else if bytes_same(key.as_slice(), kv.as_slice()) {
        match parse_bool_exec(vs) {
            Option::Some((b, r)) => Option::Some(
                (RuleAcc { proxy: cfg.proxy, proxy_url: cfg.proxy_url, verify_ssl: b }, r),
            ),
            Option::None => Option::None,
        }
    } else if bytes_same(key.as_slice(), ku.as_slice()) {
        let nl = crate::json::null_lit();
        if crate::json::has_prefix(vs, nl.as_slice()) {
            Option::Some(
                (
                    RuleAcc { proxy: cfg.proxy, proxy_url: Option::None, verify_ssl: cfg.verify_ssl },
                    crate::json::slice_skip(vs, 4),
                ),
            )
        } else {
            match crate::json::parse_string(vs) {
                Option::Some((u, r)) => Option::Some(
                    (
                        RuleAcc {
                            proxy: cfg.proxy,
                            proxy_url: Option::Some(u),
                            verify_ssl: cfg.verify_ssl,
                        },
                        r,
                    ),
                ),
                Option::None => Option::None,
            }
        }
    } else {
        Option::None
    };
    let (cfg2, r2) = match step {
        Option::None => {
            return Option::None;
        },
        Option::Some(p) => p,
    };
    let r2t = skip_ws(r2);
    if r2t.len() > 0 && r2t[0] == crate::json::COMMA {
        proof {
            crate::json::lemma_parse_string_consumes(s@);
            lemma_ws_le(r1@);
            lemma_ws_le(r1t@.skip(1));
            lemma_parse_rule_value_consumes(key@, vs@, cfg.model());
            lemma_ws_le(r2@);
            lemma_ws_le(r2t@.skip(1));
        }
        parse_rule_members(skip_ws(crate::json::slice_skip(r2t, 1)), cfg2)
    } else if r2t.len() > 0 && r2t[0] == crate::json::RBRACE {
        Option::Some((cfg2, crate::json::slice_skip(r2t, 1)))
    } else {
        Option::None
    }
}

fn parse_rule<'a>(s: &'a [u8]) -> (r: Option<(RuleAcc, &'a [u8])>)
    ensures
        match r {
            Option::Some(p) => spec_parse_rule(s@) == Option::Some((p.0.model(), p.1@)),
            Option::None => spec_parse_rule(s@) is None,
        },
{
    if !(s.len() >= 1 && s[0] == crate::json::LBRACE) {
        return Option::None;
    }
    let s1 = skip_ws(crate::json::slice_skip(s, 1));
    let acc = RuleAcc { proxy: false, proxy_url: Option::None, verify_ssl: true };
    proof {
        assert(acc.model() == spec_default_rule());
    }
    if s1.len() >= 1 && s1[0] == crate::json::RBRACE {
        Option::Some((acc, crate::json::slice_skip(s1, 1)))
    } else {
        parse_rule_members(s1, acc)
    }
}

fn parse_route_members<'a>(s: &'a [u8]) -> (r: Option<(Vec<(Vec<u8>, RuleAcc)>, &'a [u8])>)
    ensures
        match r {
            Option::Some(p) => spec_parse_route_members(s@) == Option::Some(
                (acc_views(p.0@), p.1@),
            ),
            Option::None => spec_parse_route_members(s@) is None,
        },
    decreases s@.len(),
{
    let (pat, r1) = match crate::json::parse_string(s) {
        Option::None => {
            return Option::None;
        },
        Option::Some(p) => p,
    };
    let r1t = skip_ws(r1);
    if !(r1t.len() > 0 && r1t[0] == crate::json::COLON) {
        return Option::None;
    }
    let (cfg, r2) = match parse_rule(skip_ws(crate::json::slice_skip(r1t, 1))) {
        Option::None => {
            return Option::None;
        },
        Option::Some(p) => p,
    };
    let r2t = skip_ws(r2);
    if r2t.len() > 0 && r2t[0] == crate::json::COMMA {
        proof {
            crate::json::lemma_parse_string_consumes(s@);
            lemma_ws_le(r1@);
            lemma_ws_le(r1t@.skip(1));
            lemma_parse_rule_consumes(spec_ws(r1t@.skip(1)));
            lemma_ws_le(r2@);
            lemma_ws_le(r2t@.skip(1));
        }
        match parse_route_members(skip_ws(crate::json::slice_skip(r2t, 1))) {
            Option::None => Option::None,
            Option::Some((mut ps, r3)) => {
                ps.insert(0, (pat, cfg));
                proof {
                    assert(acc_views(ps@) =~= seq![(ps@[0].0@, ps@[0].1.model())] + acc_views(
                        ps@.skip(1),
                    ));
                }
                Option::Some((ps, r3))
            },
        }
    } else if r2t.len() > 0 && r2t[0] == crate::json::RBRACE {
        let mut ps: Vec<(Vec<u8>, RuleAcc)> = Vec::new();
        let ghost pv = (pat@, cfg.model());
        ps.push((pat, cfg));
        proof {
            assert(acc_views(ps@) =~= seq![pv]);
        }
        Option::Some((ps, crate::json::slice_skip(r2t, 1)))
    } else {
        Option::None
    }
}

spec fn acc_views(v: Seq<(Vec<u8>, RuleAcc)>) -> Seq<(Seq<u8>, (bool, Option<Seq<u8>>, bool))> {
    Seq::new(v.len(), |i: int| (v[i].0@, v[i].1.model()))
}

/// Parses the routing table handed over as one JSON object; rejects text
/// outside this grammar and patterns or URLs that are not UTF-8.
pub fn parse_transport_routes(s: &str) -> (r: Option<Vec<(String, ProxyRouteConfig)>>)
    ensures
        match r {
            Option::Some(v) => spec_parse_routes(vstd::utf8::encode_utf8(s@))
                matches Option::Some(rs) && routes_utf8_ok(rs) && routes_match(v@, rs),
            Option::None => spec_parse_routes(vstd::utf8::encode_utf8(s@)) is None
                || (spec_parse_routes(vstd::utf8::encode_utf8(s@)) matches Option::Some(rs)
                && !routes_utf8_ok(rs)),
        },
{
    let s0 = skip_ws(s.as_bytes());
    if !(s0.len() >= 1 && s0[0] == crate::json::LBRACE) {
        return Option::None;
    }
    let s1 = skip_ws(crate::json::slice_skip(s0, 1));
    if s1.len() >= 1 && s1[0] == crate::json::RBRACE {
        let tail = skip_ws(crate::json::slice_skip(s1, 1));
        if tail.len() == 0 {
            return Option::Some(Vec::new());
        } else {
            return Option::None;
        }
    }
    let (ps, rest) = match parse_route_members(s1) {
        Option::None => {
            return Option::None;
        },
        Option::Some(p) => p,
    };
    if skip_ws(rest).len() != 0 {
        return Option::None;
    }
    let ghost rs = acc_views(ps@);
    let mut out: Vec<(String, ProxyRouteConfig)> = Vec::new();
    let mut i: usize = 0;
    while i < ps.len()
        invariant
            i <= ps@.len(),
            rs == acc_views(ps@),
            spec_parse_routes(vstd::utf8::encode_utf8(s@)) == Option::Some(rs),
            out@.len() == i,
            forall|j: int|
                0 <= j < i ==> valid_utf8((#[trigger] rs[j]).0) && match rs[j].1.1 {
                    Option::Some(u) => valid_utf8(u),
                    Option::None => true,
                },
            forall|j: int|
                0 <= j < i ==> {
                    &&& (#[trigger] out@[j]).0@ == decode_utf8(rs[j].0)
                    &&& out@[j].1.proxy == rs[j].1.0
                    &&& match (out@[j].1.proxy_url, rs[j].1.1) {
                        (Option::Some(u), Option::Some(b)) => u@ == decode_utf8(b),
                        (Option::None, Option::None) => true,
                        _ => false,
                    }
                    &&& out@[j].1.verify_ssl == rs[j].1.2
                },
        decreases ps@.len() - i,
    {
        proof {
            assert(rs[i as int] == (ps@[i as int].0@, ps@[i as int].1.model()));
        }
        let pat_bytes = vstd::slice::slice_to_vec(ps[i].0.as_slice());
        let pattern = match crate::cipher::bytes_to_string(pat_bytes) {
            Option::Some(p) => p,
            Option::None => {
                proof {
                    assert(!valid_utf8(rs[i as int].0));
                    assert(!routes_utf8_ok(rs));
                }
                return Option::None;
            },
        };
        let url = match &ps[i].1.proxy_url {
            Option::Some(u) => {
                let ub = vstd::slice::slice_to_vec(u.as_slice());
                match crate::cipher::bytes_to_string(ub) {
                    Option::Some(us) => Option::Some(us),
                    Option::None => {
                        proof {
                            assert(rs[i as int].1.1 matches Option::Some(b) && !valid_utf8(b));
                            assert(!routes_utf8_ok(rs));
                        }
                        return Option::None;
                    },
                }
            },
            Option::None => Option::None,
        };
        let rule = ProxyRouteConfig {
            proxy: ps[i].1.proxy,
            proxy_url: url,
            verify_ssl: ps[i].1.verify_ssl,
        };
        out.push((pattern, rule));
        i = i + 1;
    }
    Option::Some(out)
}

} // verus!
