//! The proxy router: glob-like URL patterns compiled into a table sorted by
//! wildcard count, matched against normalized destination URLs.
//!
//! A pattern matches a prefix of the URL. `*` stands for any run of bytes
//! without `/`, every other byte stands for itself, and a leading `all://`
//! accepts both `http://` and `https://`. Rules with more wildcards sort
//! first; the first matching rule decides.

use vstd::prelude::*;

use vstd::string::StrSliceExecFns;
use vstd::utf8::encode_utf8;

verus! {

pub const STAR: u8 = 0x2a;
pub const SLASH: u8 = 0x2f;

/// One routing rule: whether to use a forward proxy, which one, and
/// whether to verify TLS certificates upstream.
#[derive(Debug, Clone)]
pub struct ProxyRouteConfig {
    pub proxy: bool,
    pub proxy_url: Option<String>,
    pub verify_ssl: bool,
}

/// The TLS-verification default used when a rule leaves it unset.
pub fn default_verify_ssl() -> (r: bool)
    ensures
        r,
{
    true
}

impl ProxyRouteConfig {
    /// An equal copy of this rule.
    pub fn duplicate(&self) -> (r: Self)
        ensures
            r == *self,
    {
        ProxyRouteConfig {
            proxy: self.proxy,
            proxy_url: match &self.proxy_url {
                Option::Some(u) => Option::Some(u.clone()),
                Option::None => Option::None,
            },
            verify_ssl: self.verify_ssl,
        }
    }
}

impl Default for ProxyRouteConfig {
    /// The all-fields-unset rule: no proxying, no proxy URL, and TLS
    /// verification off, as a plain field-wise default.
    fn default() -> (r: Self)
        ensures
            !r.proxy,
            r.proxy_url is None,
            !r.verify_ssl,
    {
        ProxyRouteConfig { proxy: false, proxy_url: Option::None, verify_ssl: false }
    }
}

/// A compiled rule: the glob pattern and its configuration.
#[derive(Debug, Clone)]
pub struct ProxyRoute {
    pub pattern: String,
    pub config: ProxyRouteConfig,
}

// ---------------------------------------------------------------------------
// Glob matching over pattern and URL bytes.
// ---------------------------------------------------------------------------
/// Whether a glob pattern matches a prefix of the text: `*` takes any run
/// of bytes other than `/`, anything else matches itself.
pub open spec fn spec_glob(pat: Seq<u8>, text: Seq<u8>) -> bool
    decreases pat.len(),
{
    if pat.len() == 0 {
        true
    } else if pat[0] == STAR {
        exists|k: int|
            0 <= k <= text.len() && (forall|j: int| 0 <= j < k ==> text[j] != SLASH)
                && spec_glob(pat.skip(1), text.skip(k))
    } else {
        text.len() > 0 && text[0] == pat[0] && spec_glob(pat.skip(1), text.skip(1))
    }
}

/// `all://`
pub open spec fn spec_all_scheme() -> Seq<u8> {
    seq![0x61u8, 0x6c, 0x6c, 0x3a, 0x2f, 0x2f]
}

/// `http://`
pub open spec fn spec_http_scheme() -> Seq<u8> {
    seq![0x68u8, 0x74, 0x74, 0x70, 0x3a, 0x2f, 0x2f]
}

/// `https://`
pub open spec fn spec_https_scheme() -> Seq<u8> {
    seq![0x68u8, 0x74, 0x74, 0x70, 0x73, 0x3a, 0x2f, 0x2f]
}

pub open spec fn spec_prefix(s: Seq<u8>, p: Seq<u8>) -> bool {
    s.len() >= p.len() && s.take(p.len() as int) == p
}

/// Whether a rule's pattern matches a URL: a pattern opening with `all://`
/// accepts either scheme, any other pattern matches the URL from its start.
pub open spec fn spec_pattern_matches(pat: Seq<u8>, text: Seq<u8>) -> bool {
    if spec_prefix(pat, spec_all_scheme()) {
        ||| spec_prefix(text, spec_http_scheme()) && spec_glob(pat.skip(6), text.skip(7))
        ||| spec_prefix(text, spec_https_scheme()) && spec_glob(pat.skip(6), text.skip(8))
    } else {
        spec_glob(pat, text)
    }
}

fn slice_from<'a>(s: &'a [u8], n: usize) -> (r: &'a [u8])
    requires
        n <= s@.len(),
    ensures
        r@ == s@.skip(n as int),
{
    let r = &s[n..s.len()];
    proof {
        assert(r@ =~= s@.skip(n as int));
    }
    r
}

fn bytes_prefix(s: &[u8], p: &[u8]) -> (r: bool)
    ensures
        r == spec_prefix(s@, p@),
{
    if s.len() < p.len() {
        proof {
            assert(!spec_prefix(s@, p@));
        }
        return false;
    }
    let mut i: usize = 0;
    while i < p.len()
        invariant
            i <= p@.len() <= s@.len(),
            forall|j: int| 0 <= j < i ==> s@[j] == p@[j],
        decreases p@.len() - i,
    {
        if s[i] != p[i] {
            proof {
                assert(s@.take(p@.len() as int)[i as int] == s@[i as int]);
            }
            return false;
        }
        i = i + 1;
    }
    proof {
        assert(s@.take(p@.len() as int) =~= p@);
    }
    true
}

/// Matches a glob pattern against a text, mirroring [`spec_glob`].
fn glob_match(pat: &[u8], text: &[u8]) -> (b: bool)
    ensures
        b == spec_glob(pat@, text@),
    decreases pat@.len(), text@.len(),
{
    if pat.len() == 0 {
        return true;
    }
    if pat[0] == STAR {
        let tail = slice_from(pat, 1);
        let mut k: usize = 0;
        loop
            invariant
                pat@.len() > 0,
                pat@[0] == STAR,
                tail@ == pat@.skip(1),
                k <= text@.len(),
                forall|j: int| 0 <= j < k ==> text@[j] != SLASH,
                forall|kk: int| 0 <= kk < k ==> !spec_glob(pat@.skip(1), #[trigger] text@.skip(kk)),
            decreases text@.len() - k,
        {
            if glob_match(tail, slice_from(text, k)) {
                proof {
                    assert(0 <= k as int <= text@.len() && (forall|j: int|
                        0 <= j < k as int ==> text@[j] != SLASH) && spec_glob(
                        pat@.skip(1),
                        text@.skip(k as int),
                    ));
                }
                return true;
            }
            if k == text.len() {
                proof {
                    assert(forall|kk: int|
                        0 <= kk <= text@.len() ==> !spec_glob(
                            pat@.skip(1),
                            #[trigger] text@.skip(kk),
                        ));
                }
                return false;
            }
            if text[k] == SLASH {
                proof {
                    assert forall|kk: int| #![trigger text@.skip(kk)] k < kk <= text@.len()
                        implies !(forall|j: int| 0 <= j < kk ==> (#[trigger] text@[j])
                        != SLASH) by {
                        assert(0 <= k < kk && text@[k as int] == SLASH);
                    }
                }
                return false;
            }
            k = k + 1;
        }
    }
    if text.len() > 0 && text[0] == pat[0] {
        glob_match(slice_from(pat, 1), slice_from(text, 1))
    } else {
        false
    }
}

/// Matches a rule pattern against a URL, mirroring [`spec_pattern_matches`].
fn pattern_match(pat: &[u8], text: &[u8]) -> (b: bool)
    ensures
        b == spec_pattern_matches(pat@, text@),
{
    let all_scheme: Vec<u8> = vec![0x61u8, 0x6c, 0x6c, 0x3a, 0x2f, 0x2f];
    assert(all_scheme@ =~= spec_all_scheme());
    if bytes_prefix(pat, all_scheme.as_slice()) {
        let http_scheme: Vec<u8> = vec![0x68u8, 0x74, 0x74, 0x70, 0x3a, 0x2f, 0x2f];
        assert(http_scheme@ =~= spec_http_scheme());
        let https_scheme: Vec<u8> = vec![0x68u8, 0x74, 0x74, 0x70, 0x73, 0x3a, 0x2f, 0x2f];
        assert(https_scheme@ =~= spec_https_scheme());
        let rest = slice_from(pat, 6);
        if bytes_prefix(text, http_scheme.as_slice()) && glob_match(rest, slice_from(text, 7)) {
            return true;
        }
        if bytes_prefix(text, https_scheme.as_slice()) && glob_match(rest, slice_from(text, 8)) {
            return true;
        }
        false
    } else {
        glob_match(pat, text)
    }
}

// ---------------------------------------------------------------------------
// Wildcard counting and route ordering.
// ---------------------------------------------------------------------------
/// The number of `*` wildcards in a pattern.
pub open spec fn spec_wildcards(pat: Seq<u8>) -> int
    decreases pat.len(),
{
    if pat.len() == 0 {
        0
    } else {
        (if pat[0] == STAR {
            1int
        } else {
            0int
        }) + spec_wildcards(pat.skip(1))
    }
}

/// A route's wildcard count, measured on the UTF-8 bytes of its pattern.
pub open spec fn spec_route_wc(r: ProxyRoute) -> int {
    spec_wildcards(encode_utf8(r.pattern@))
}

fn count_wildcards(pat: &[u8]) -> (n: usize)
    ensures
        n == spec_wildcards(pat@),
{
    let mut n: usize = 0;
    let mut i: usize = 0;
    while i < pat.len()
        invariant
            i <= pat@.len(),
            n == spec_wildcards(pat@.take(i as int)),
            n <= i,
        decreases pat@.len() - i,
    {
        proof {
            lemma_wildcards_snoc(pat@, i as int);
        }
        if pat[i] == STAR {
            n = n + 1;
        }
        i = i + 1;
    }
    proof {
        assert(pat@.take(pat@.len() as int) =~= pat@);
    }
    n
}

proof fn lemma_wildcards_snoc(pat: Seq<u8>, i: int)
    requires
        0 <= i < pat.len(),
    ensures
        spec_wildcards(pat.take(i + 1)) == spec_wildcards(pat.take(i)) + (if pat[i] == STAR {
            1int
        } else {
            0int
        }),
    decreases i,
{
    if i == 0 {
        assert(pat.take(1) =~= seq![pat[0]]);
        assert(pat.take(1).skip(1) =~= Seq::<u8>::empty());
        assert(pat.take(0) =~= Seq::<u8>::empty());
    } else {
        lemma_wildcards_snoc(pat.skip(1), i - 1);
        assert(pat.take(i + 1).skip(1) =~= pat.skip(1).take(i));
        assert(pat.take(i).skip(1) =~= pat.skip(1).take(i - 1));
        assert(pat.take(i + 1)[0] == pat[0]);
        assert(pat.take(i)[0] == pat[0]);
        assert(pat.skip(1)[i - 1] == pat[i]);
    }
}

/// Routes ordered by wildcard count, most-wildcarded first.
pub open spec fn spec_sorted_desc(rs: Seq<ProxyRoute>) -> bool {
    forall|p: int, q: int|
        0 <= p < q < rs.len() ==> spec_route_wc(#[trigger] rs[p]) >= spec_route_wc(
            #[trigger] rs[q],
        )
}

/// Where a new route goes: after every route with at least as many
/// wildcards.
pub open spec fn spec_ins_pos(rs: Seq<ProxyRoute>, r: ProxyRoute) -> int
    decreases rs.len(),
{
    if rs.len() == 0 {
        0
    } else if spec_route_wc(rs[0]) < spec_route_wc(r) {
        0
    } else {
        1 + spec_ins_pos(rs.skip(1), r)
    }
}

/// One insertion step of the ordered construction.
pub open spec fn spec_insert_route(rs: Seq<ProxyRoute>, r: ProxyRoute) -> Seq<ProxyRoute> {
    rs.insert(spec_ins_pos(rs, r), r)
}

/// The whole table built from a rule list, one ordered insertion per rule.
pub open spec fn spec_build_routes(cfgs: Seq<(String, ProxyRouteConfig)>) -> Seq<ProxyRoute>
    decreases cfgs.len(),
{
    if cfgs.len() == 0 {
        Seq::empty()
    } else {
        spec_insert_route(
            spec_build_routes(cfgs.drop_last()),
            ProxyRoute { pattern: cfgs.last().0, config: cfgs.last().1 },
        )
    }
}

proof fn lemma_ins_pos_range(rs: Seq<ProxyRoute>, r: ProxyRoute)
    ensures
        0 <= spec_ins_pos(rs, r) <= rs.len(),
        forall|q: int|
            0 <= q < spec_ins_pos(rs, r) ==> spec_route_wc(#[trigger] rs[q]) >= spec_route_wc(r),
        spec_ins_pos(rs, r) < rs.len() ==> spec_route_wc(rs[spec_ins_pos(rs, r)])
            < spec_route_wc(r),
    decreases rs.len(),
{
    if rs.len() == 0 {
    } else if spec_route_wc(rs[0]) < spec_route_wc(r) {
    } else {
        lemma_ins_pos_range(rs.skip(1), r);
        let pos = spec_ins_pos(rs, r);
        assert forall|q: int| 0 <= q < pos implies spec_route_wc(#[trigger] rs[q])
            >= spec_route_wc(r) by {
            if q > 0 {
                assert(rs[q] == rs.skip(1)[q - 1]);
            }
        }
        if pos < rs.len() {
            assert(rs[pos] == rs.skip(1)[pos - 1]);
        }
    }
}

/// Ordered insertion keeps the table ordered.
proof fn lemma_insert_route_sorted(rs: Seq<ProxyRoute>, r: ProxyRoute)
    requires
        spec_sorted_desc(rs),
    ensures
        spec_sorted_desc(spec_insert_route(rs, r)),
{
    lemma_ins_pos_range(rs, r);
    let pos = spec_ins_pos(rs, r);
    let out = rs.insert(pos, r);
    assert forall|p: int, q: int| 0 <= p < q < out.len() implies spec_route_wc(#[trigger] out[p])
        >= spec_route_wc(#[trigger] out[q]) by {
        if p < pos {
            assert(out[p] == rs[p]);
        } else if p == pos {
            assert(out[p] == r);
        } else {
            assert(out[p] == rs[p - 1]);
        }
        if q < pos {
            assert(out[q] == rs[q]);
        } else if q == pos {
            assert(out[q] == r);
        } else {
            assert(out[q] == rs[q - 1]);
        }
    }
}

/// The built table is ordered.
pub proof fn lemma_build_routes_sorted(cfgs: Seq<(String, ProxyRouteConfig)>)
    ensures
        spec_sorted_desc(spec_build_routes(cfgs)),
    decreases cfgs.len(),
{
    if cfgs.len() == 0 {
    } else {
        lemma_build_routes_sorted(cfgs.drop_last());
        lemma_insert_route_sorted(
            spec_build_routes(cfgs.drop_last()),
            ProxyRoute { pattern: cfgs.last().0, config: cfgs.last().1 },
        );
    }
}

// ---------------------------------------------------------------------------
// The router.
// ---------------------------------------------------------------------------
/// What the URL crate serializes a parsed URL to, if the text parses.
pub uninterp spec fn url_normalized(s: Seq<char>) -> Option<Seq<char>>;

/// Relies on `url::Url::parse` and `url::Url::as_str`: whether a text
/// parses, and the normalized form it serializes back to, are functions of
/// the text alone.
#[verifier::external_body]
fn normalize_url(s: &str) -> (r: Option<String>)
    ensures
        match r {
            Option::Some(t) => url_normalized(s@) == Option::Some(t@),
            Option::None => url_normalized(s@) is None,
        },
{
    match url::Url::parse(s) {
        Ok(u) => Some(u.as_str().to_string()),
        Err(_) => None,
    }
}

/// The first rule in the table whose pattern matches the normalized URL.
pub open spec fn spec_first_match(rs: Seq<ProxyRoute>, url: Seq<char>) -> Option<ProxyRouteConfig>
    decreases rs.len(),
{
    if rs.len() == 0 {
        Option::None
    } else if spec_pattern_matches(encode_utf8(rs[0].pattern@), encode_utf8(url)) {
        Option::Some(rs[0].config)
    } else {
        spec_first_match(rs.skip(1), url)
    }
}

/// The compiled routing table.
#[derive(Debug, Clone)]
pub struct ProxyRouter {
    default_proxy: Option<String>,
    all_proxy: bool,
    routes: Vec<ProxyRoute>,
}

/// The rule a router chooses for a URL: no rule for a URL that does not
/// parse; otherwise the first match in the ordered table; otherwise, with
/// `all_proxy` set, the default forward proxy with TLS verification on.
pub open spec fn spec_route_decision(
    routes: Seq<ProxyRoute>,
    all_proxy: bool,
    default_proxy: Option<String>,
    url: Seq<char>,
) -> Option<ProxyRouteConfig> {
    match url_normalized(url) {
        Option::None => Option::None,
        Option::Some(norm) => match spec_first_match(routes, norm) {
            Option::Some(cfg) => Option::Some(cfg),
            Option::None => if all_proxy {
                Option::Some(
                    ProxyRouteConfig { proxy: true, proxy_url: default_proxy, verify_ssl: true },
                )
            } else {
                Option::None
            },
        },
    }
}

impl ProxyRouter {
    pub closed spec fn spec_routes(&self) -> Seq<ProxyRoute> {
        self.routes@
    }

    pub closed spec fn spec_all_proxy(&self) -> bool {
        self.all_proxy
    }

    pub closed spec fn spec_default_proxy(&self) -> Option<String> {
        self.default_proxy
    }

    /// Compiles a rule list into a table ordered most-wildcarded first.
    pub fn new(
        default_proxy: Option<String>,
        all_proxy: bool,
        routes_config: Vec<(String, ProxyRouteConfig)>,
    ) -> (r: Self)
        ensures
            r.spec_routes() == spec_build_routes(routes_config@),
            spec_sorted_desc(r.spec_routes()),
            r.spec_all_proxy() == all_proxy,
            r.spec_default_proxy() == default_proxy,
    {
        let mut routes: Vec<ProxyRoute> = Vec::new();
        let mut i: usize = 0;
        while i < routes_config.len()
            invariant
                i <= routes_config@.len(),
                routes@ == spec_build_routes(routes_config@.take(i as int)),
            decreases routes_config@.len() - i,
        {
            let pattern = routes_config[i].0.clone();
            let config = routes_config[i].1.duplicate();
            let route = ProxyRoute { pattern, config };
            let pos = Self::insert_position(&routes, &route);
            routes.insert(pos, route);
            proof {
                assert(routes_config@.take(i + 1).drop_last() =~= routes_config@.take(i as int));
                assert(routes_config@.take(i + 1).last() == routes_config@[i as int]);
            }
            i = i + 1;
        }
        proof {
            assert(routes_config@.take(routes_config@.len() as int) =~= routes_config@);
            lemma_build_routes_sorted(routes_config@);
        }
        ProxyRouter { default_proxy, all_proxy, routes }
    }

    fn insert_position(routes: &Vec<ProxyRoute>, route: &ProxyRoute) -> (pos: usize)
        ensures
            pos == spec_ins_pos(routes@, *route),
            pos <= routes@.len(),
    {
        let rwc = count_wildcards(route.pattern.as_str().as_bytes_vec().as_slice());
        let mut pos: usize = 0;
        while pos < routes.len()
            invariant
                pos <= routes@.len(),
                rwc == spec_route_wc(*route),
                forall|q: int|
                    0 <= q < pos ==> spec_route_wc(#[trigger] routes@[q]) >= spec_route_wc(*route),
            decreases routes@.len() - pos,
        {
            let wc = count_wildcards(routes[pos].pattern.as_str().as_bytes_vec().as_slice());
            if wc < rwc {
                proof {
                    lemma_ins_pos_unique(routes@, *route, pos as int);
                }
                return pos;
            }
            pos = pos + 1;
        }
        proof {
            lemma_ins_pos_unique(routes@, *route, pos as int);
        }
        pos
    }

    /// Derives the router from the proxy section of the configuration.
    pub fn from_config(config: &crate::config::ProxyConfig) -> (r: Self)
        ensures
            r.spec_routes() == spec_build_routes(config.transport_routes@),
            spec_sorted_desc(r.spec_routes()),
            r.spec_all_proxy() == config.all_proxy,
            r.spec_default_proxy() == config.proxy_url,
    {
        let mut routes_config: Vec<(String, ProxyRouteConfig)> = Vec::new();
        let mut i: usize = 0;
        while i < config.transport_routes.len()
            invariant
                i <= config.transport_routes@.len(),
                routes_config@.len() == i,
                forall|j: int|
                    0 <= j < i ==> #[trigger] routes_config@[j] == config.transport_routes@[j],
            decreases config.transport_routes@.len() - i,
        {
            let k = config.transport_routes[i].0.clone();
            let v = config.transport_routes[i].1.duplicate();
            routes_config.push((k, v));
            i = i + 1;
        }
        proof {
            assert(routes_config@ =~= config.transport_routes@);
        }
        let default_proxy = match &config.proxy_url {
            Option::Some(u) => Option::Some(u.clone()),
            Option::None => Option::None,
        };
        Self::new(default_proxy, config.all_proxy, routes_config)
    }

    /// Chooses the rule for a destination URL; see [`spec_route_decision`].
    pub fn get_proxy_config(&self, url: &str) -> (r: Option<ProxyRouteConfig>)
        ensures
            r == spec_route_decision(
                self.spec_routes(),
                self.spec_all_proxy(),
                self.spec_default_proxy(),
                url@,
            ),
    {
        let norm = match normalize_url(url) {
            Option::Some(n) => n,
            Option::None => {
                return Option::None;
            },
        };
        let norm_bytes = norm.as_str().as_bytes_vec();
        let mut i: usize = 0;
        while i < self.routes.len()
            invariant
                i <= self.routes@.len(),
                norm_bytes@ == encode_utf8(norm@),
                url_normalized(url@) == Option::Some(norm@),
                forall|j: int|
                    0 <= j < i ==> !spec_pattern_matches(
                        encode_utf8(#[trigger] self.routes@[j].pattern@),
                        encode_utf8(norm@),
                    ),
            decreases self.routes@.len() - i,
        {
            let pat_bytes = self.routes[i].pattern.as_str().as_bytes_vec();
            if pattern_match(pat_bytes.as_slice(), norm_bytes.as_slice()) {
                let cfg = self.routes[i].config.duplicate();
                proof {
                    lemma_first_match_at(self.routes@, norm@, i as int);
                    assert(cfg == self.routes@[i as int].config);
                    assert(spec_first_match(self.routes@, norm@) == Option::Some(
                        self.routes@[i as int].config,
                    ));
                    assert(url_normalized(url@) == Option::Some(norm@));
                }
                return Option::Some(cfg);
            }
            i = i + 1;
        }
        proof {
            lemma_first_match_none(self.routes@, norm@);
        }
        if self.all_proxy {
            let default_proxy = match &self.default_proxy {
                Option::Some(u) => Option::Some(u.clone()),
                Option::None => Option::None,
            };
            Option::Some(ProxyRouteConfig { proxy: true, proxy_url: default_proxy, verify_ssl: true })
        } else {
            Option::None
        }
    }

    /// The default forward proxy the router was built with.
    pub fn default_proxy(&self) -> (r: &Option<String>)
        ensures
            *r == self.spec_default_proxy(),
    {
        &self.default_proxy
    }
}

proof fn lemma_ins_pos_unique(rs: Seq<ProxyRoute>, r: ProxyRoute, pos: int)
    requires
        0 <= pos <= rs.len(),
        forall|q: int| 0 <= q < pos ==> spec_route_wc(#[trigger] rs[q]) >= spec_route_wc(r),
        pos < rs.len() ==> spec_route_wc(rs[pos]) < spec_route_wc(r),
    ensures
        spec_ins_pos(rs, r) == pos,
    decreases rs.len(),
{
    if rs.len() == 0 {
    } else if spec_route_wc(rs[0]) < spec_route_wc(r) {
        assert(pos == 0) by {
            if pos > 0 {
                assert(spec_route_wc(rs[0]) >= spec_route_wc(r));
            }
        }
    } else {
        assert(pos > 0);
        lemma_ins_pos_unique(rs.skip(1), r, pos - 1);
        assert(forall|q: int| 0 <= q < pos - 1 ==> #[trigger] rs.skip(1)[q] == rs[q + 1]);
        assert(pos - 1 < rs.skip(1).len() ==> rs.skip(1)[pos - 1] == rs[pos]);
    }
}

/// The first match is the match with the least index.
pub proof fn lemma_first_match_at(rs: Seq<ProxyRoute>, url: Seq<char>, i: int)
    requires
        0 <= i < rs.len(),
        spec_pattern_matches(encode_utf8(rs[i].pattern@), encode_utf8(url)),
        forall|j: int|
            0 <= j < i ==> !spec_pattern_matches(
                encode_utf8(#[trigger] rs[j].pattern@),
                encode_utf8(url),
            ),
    ensures
        spec_first_match(rs, url) == Option::Some(rs[i].config),
    decreases i,
{
    if i == 0 {
    } else {
        lemma_first_match_at(rs.skip(1), url, i - 1);
        assert(forall|j: int| 0 <= j < i - 1 ==> #[trigger] rs.skip(1)[j] == rs[j + 1]);
        assert(rs.skip(1)[i - 1] == rs[i]);
    }
}

proof fn lemma_first_match_none(rs: Seq<ProxyRoute>, url: Seq<char>)
    requires
        forall|j: int|
            0 <= j < rs.len() ==> !spec_pattern_matches(
                encode_utf8(#[trigger] rs[j].pattern@),
                encode_utf8(url),
            ),
    ensures
        spec_first_match(rs, url) is None,
    decreases rs.len(),
{
    if rs.len() == 0 {
    } else {
        assert(forall|j: int| 0 <= j < rs.len() - 1 ==> #[trigger] rs.skip(1)[j] == rs[j + 1]);
        lemma_first_match_none(rs.skip(1), url);
    }
}

/// Router specificity: of two rules that both match a URL, the one with
/// more wildcards stands first in the table and is the one returned.
pub proof fn lemma_router_specificity(a: ProxyRoute, b: ProxyRoute, url: Seq<char>)
    requires
        spec_route_wc(a) == 0,
        spec_route_wc(b) == 1,
        spec_pattern_matches(encode_utf8(a.pattern@), encode_utf8(url)),
        spec_pattern_matches(encode_utf8(b.pattern@), encode_utf8(url)),
    ensures
        spec_first_match(seq![b, a], url) == Option::Some(b.config),
        spec_sorted_desc(seq![b, a]),
{
    assert(seq![b, a][0] == b);
}

} // verus!
