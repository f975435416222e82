//! The relay's decisions: which client settings reach an upstream, what
//! counts as upstream success, how the downstream body is framed, and the
//! progress accounting of a running stream. The I/O around these decisions
//! lives outside the library.

use vstd::prelude::*;

use crate::config::ProxyConfig;
use crate::error::AppError;
use crate::headers::{spec_find_header, spec_hn_content_length};
use crate::json::{is_digit, spec_digits_val, view_pairs};
use crate::router::{spec_route_decision, ProxyRouteConfig, ProxyRouter};
use vstd::string::StringExecFns;

verus! {

// ---------------------------------------------------------------------------
// Content length.
// ---------------------------------------------------------------------------
/// What a `content-length` value denotes: its decimal value when it is all
/// digits and fits; zero otherwise.
pub open spec fn spec_parse_content_length(v: Seq<u8>) -> u64 {
    if v.len() > 0 && (forall|i: int| 0 <= i < v.len() ==> is_digit(#[trigger] v[i]))
        && spec_digits_val(v) <= u64::MAX {
        spec_digits_val(v) as u64
    } else {
        0
    }
}

/// The content length announced by a header list: the first
/// `content-length` entry's value, zero when absent or malformed.
pub open spec fn spec_content_length(hs: Seq<(Seq<u8>, Seq<u8>)>) -> u64 {
    match spec_find_header(hs, spec_hn_content_length()) {
        Option::None => 0,
        Option::Some(i) => spec_parse_content_length(hs[i].1),
    }
}

proof fn lemma_digits_val_nonneg(d: Seq<u8>)
    requires
        forall|i: int| 0 <= i < d.len() ==> is_digit(#[trigger] d[i]),
    ensures
        spec_digits_val(d) >= 0,
    decreases d.len(),
{
    if d.len() > 0 {
        let dh = d.take(d.len() - 1);
        assert(forall|i: int| 0 <= i < dh.len() ==> is_digit(#[trigger] dh[i]));
        lemma_digits_val_nonneg(dh);
    }
}

fn parse_content_length_value(v: &[u8]) -> (r: u64)
    ensures
        r == spec_parse_content_length(v@),
{
    if v.len() == 0 {
        return 0;
    }
    let mut j: usize = 0;
    while j < v.len()
        invariant
            j <= v@.len(),
            forall|i: int| 0 <= i < j ==> is_digit(#[trigger] v@[i]),
        decreases v@.len() - j,
    {
        let b = v[j];
        if !(0x30 <= b && b <= 0x39) {
            return 0;
        }
        j = j + 1;
    }
    let cap: u128 = 0x10000000000000000;
    let mut acc: u128 = 0;
    let mut k: usize = 0;
    proof {
        assert(v@.take(0) =~= Seq::<u8>::empty());
    }
    while k < v.len()
        invariant
            k <= v@.len(),
            forall|i: int| 0 <= i < v@.len() ==> is_digit(#[trigger] v@[i]),
            cap == 0x10000000000000000,
            acc == if spec_digits_val(v@.take(k as int)) > u64::MAX {
                cap
            } else {
                spec_digits_val(v@.take(k as int)) as u128
            },
        decreases v@.len() - k,
    {
        let b = v[k];
        proof {
            assert(v@.take(k + 1).take(k as int) =~= v@.take(k as int));
            assert(v@.take(k + 1)[k as int] == v@[k as int]);
            let dprev = v@.take(k as int);
            assert(forall|i: int| 0 <= i < dprev.len() ==> is_digit(#[trigger] dprev[i]));
            lemma_digits_val_nonneg(dprev);
        }
        let step: u128 = acc * 10 + ((b - 0x30) as u128);
        acc = if step > cap {
            cap
        } else {
            step
        };
        k = k + 1;
    }
    proof {
        assert(v@.take(v@.len() as int) =~= v@);
        lemma_digits_val_nonneg(v@);
        let val = spec_digits_val(v@);
        if acc <= u64::MAX as u128 {
            assert(val == acc);
            assert(spec_parse_content_length(v@) == val as u64);
        } else {
            assert(val > u64::MAX);
            assert(spec_parse_content_length(v@) == 0);
        }
    }
    if acc <= u64::MAX as u128 {
        acc as u64
    } else {
        0
    }
}

/// Reads the announced content length from composed headers; see
/// [`spec_content_length`].
pub fn content_length_of(headers: &Vec<(Vec<u8>, Vec<u8>)>) -> (r: u64)
    ensures
        r == spec_content_length(view_pairs(headers@)),
{
    let name: Vec<u8> = vec![0x63u8, 0x6f, 0x6e, 0x74, 0x65, 0x6e, 0x74, 0x2d, 0x6c, 0x65, 0x6e, 0x67, 0x74, 0x68];
    assert(name@ =~= spec_hn_content_length());
    let mut i: usize = 0;
    while i < headers.len()
        invariant
            i <= headers@.len(),
            name@ == spec_hn_content_length(),
            forall|j: int|
                0 <= j < i ==> crate::headers::spec_lower(
                    #[trigger] view_pairs(headers@)[j].0,
                ) != spec_hn_content_length(),
        decreases headers@.len() - i,
    {
        let low = lower_of(headers[i].0.as_slice());
        proof {
            assert(view_pairs(headers@)[i as int].0 == headers@[i as int].0@);
        }
        if eq_bytes(low.as_slice(), name.as_slice()) {
            proof {
                crate::headers::lemma_find_header_at(
                    view_pairs(headers@),
                    spec_hn_content_length(),
                    i as int,
                );
            }
            return parse_content_length_value(headers[i].1.as_slice());
        }
        i = i + 1;
    }
    proof {
        crate::headers::lemma_find_header_none(view_pairs(headers@), spec_hn_content_length());
    }
    0
}

fn lower_of(s: &[u8]) -> (r: Vec<u8>)
    ensures
        r@ == crate::headers::spec_lower(s@),
{
    let mut out: Vec<u8> = Vec::new();
    let mut i: usize = 0;
    while i < s.len()
        invariant
            i <= s@.len(),
            out@.len() == i,
            forall|j: int|
                0 <= j < i ==> out@[j] == crate::headers::spec_lower_byte(#[trigger] s@[j]),
        decreases s@.len() - i,
    {
        let b = s[i];
        if 0x41 <= b && b <= 0x5a {
            out.push(b + 0x20);
        } else {
            out.push(b);
        }
        i = i + 1;
    }
    proof {
        assert(out@ =~= crate::headers::spec_lower(s@));
    }
    out
}

fn eq_bytes(a: &[u8], b: &[u8]) -> (r: bool)
    ensures
        r == (a@ == b@),
{
    if a.len() != b.len() {
        return false;
    }
    let mut p: usize = 0;
    while p < a.len()
        invariant
            p <= a@.len(),
            a@.len() == b@.len(),
            forall|q: int| 0 <= q < p ==> a@[q] == b@[q],
        decreases a@.len() - p,
    {
        if a[p] != b[p] {
            return false;
        }
        p = p + 1;
    }
    proof {
        assert(a@ =~= b@);
    }
    true
}

// ---------------------------------------------------------------------------
// Body framing.
// ---------------------------------------------------------------------------
/// How the downstream body is framed.
#[derive(Debug, PartialEq, Eq, Structural, Clone, Copy)]
pub enum BodyFraming {
    /// A HEAD response: the announced length with a zero-length body.
    Head(u64),
    /// A sized body of exactly the announced length.
    Sized(u64),
    /// A chunked body of unknown length.
    Chunked,
}

/// Decides the downstream framing: a HEAD request gets headers with the
/// announced length and no body bytes; a GET with a positive length gets a
/// sized body; a GET without one is chunked.
pub fn decide_framing(is_head: bool, content_length: u64) -> (r: BodyFraming)
    ensures
        is_head ==> r == BodyFraming::Head(content_length),
        !is_head && content_length > 0 ==> r == BodyFraming::Sized(content_length),
        !is_head && content_length == 0 ==> r == BodyFraming::Chunked,
{
    if is_head {
        BodyFraming::Head(content_length)
    } else if content_length > 0 {
        BodyFraming::Sized(content_length)
    } else {
        BodyFraming::Chunked
    }
}

// ---------------------------------------------------------------------------
// Upstream status and error messages.
// ---------------------------------------------------------------------------
pub open spec fn spec_digit_char(d: u64) -> char {
    if d == 0 {
        '0'
    } else if d == 1 {
        '1'
    } else if d == 2 {
        '2'
    } else if d == 3 {
        '3'
    } else if d == 4 {
        '4'
    } else if d == 5 {
        '5'
    } else if d == 6 {
        '6'
    } else if d == 7 {
        '7'
    } else if d == 8 {
        '8'
    } else {
        '9'
    }
}

/// The decimal text of a number.
pub open spec fn spec_u64_chars(n: u64) -> Seq<char>
    decreases n,
{
    if n < 10 {
        seq![spec_digit_char(n)]
    } else {
        spec_u64_chars(n / 10) + seq![spec_digit_char(n % 10)]
    }
}

fn digit_str(d: u64) -> (r: String)
    requires
        d < 10,
    ensures
        r@ == seq![spec_digit_char(d)],
{
    let s = if d == 0 {
        proof {
            reveal_strlit("0");
        }
        String::from_str("0")
    } else if d == 1 {
        proof {
            reveal_strlit("1");
        }
        String::from_str("1")
    } else if d == 2 {
        proof {
            reveal_strlit("2");
        }
        String::from_str("2")
    } else if d == 3 {
        proof {
            reveal_strlit("3");
        }
        String::from_str("3")
    } else if d == 4 {
        proof {
            reveal_strlit("4");
        }
        String::from_str("4")
    } else if d == 5 {
        proof {
            reveal_strlit("5");
        }
        String::from_str("5")
    } else if d == 6 {
        proof {
            reveal_strlit("6");
        }
        String::from_str("6")
    } else if d == 7 {
        proof {
            reveal_strlit("7");
        }
        String::from_str("7")
    } else if d == 8 {
        proof {
            reveal_strlit("8");
        }
        String::from_str("8")
    } else {
        proof {
            reveal_strlit("9");
        }
        String::from_str("9")
    };
    proof {
        assert(s@ =~= seq![spec_digit_char(d)]);
    }
    s
}

/// Renders a number in decimal.
pub fn u64_to_string(n: u64) -> (r: String)
    ensures
        r@ == spec_u64_chars(n),
    decreases n,
{
    if n < 10 {
        digit_str(n)
    } else {
        let mut s = u64_to_string(n / 10);
        let tail = digit_str(n % 10);
        s.append(tail.as_str());
        s
    }
}

/// The reason phrase spoken beside a status code, as the HTTP status
/// registry names them; an unregistered code reads as unknown.
pub open spec fn spec_reason(code: u16) -> Seq<char> {
    if code == 100 {
        "Continue"@
    } else if code == 101 {
        "Switching Protocols"@
    } else if code == 102 {
        "Processing"@
    } else if code == 103 {
        "Early Hints"@
    } else if code == 200 {
        "OK"@
    } else if code == 201 {
        "Created"@
    } else if code == 202 {
        "Accepted"@
    } else if code == 203 {
        "Non Authoritative Information"@
    } else if code == 204 {
        "No Content"@
    } else if code == 205 {
        "Reset Content"@
    } else if code == 206 {
        "Partial Content"@
    } else if code == 207 {
        "Multi-Status"@
    } else if code == 208 {
        "Already Reported"@
    } else if code == 226 {
        "IM Used"@
    } else if code == 300 {
        "Multiple Choices"@
    } else if code == 301 {
        "Moved Permanently"@
    } else if code == 302 {
        "Found"@
    } else if code == 303 {
        "See Other"@
    } else if code == 304 {
        "Not Modified"@
    } else if code == 305 {
        "Use Proxy"@
    } else if code == 307 {
        "Temporary Redirect"@
    } else if code == 308 {
        "Permanent Redirect"@
    } else if code == 400 {
        "Bad Request"@
    } else if code == 401 {
        "Unauthorized"@
    } else if code == 402 {
        "Payment Required"@
    } else if code == 403 {
        "Forbidden"@
    } else if code == 404 {
        "Not Found"@
    } else if code == 405 {
        "Method Not Allowed"@
    } else if code == 406 {
        "Not Acceptable"@
    } else if code == 407 {
        "Proxy Authentication Required"@
    } else if code == 408 {
        "Request Timeout"@
    } else if code == 409 {
        "Conflict"@
    } else if code == 410 {
        "Gone"@
    } else if code == 411 {
        "Length Required"@
    } else if code == 412 {
        "Precondition Failed"@
    } else if code == 413 {
        "Payload Too Large"@
    } else if code == 414 {
        "URI Too Long"@
    } else if code == 415 {
        "Unsupported Media Type"@
    } else if code == 416 {
        "Range Not Satisfiable"@
    } else if code == 417 {
        "Expectation Failed"@
    } else if code == 418 {
        "I'm a teapot"@
    } else if code == 421 {
        "Misdirected Request"@
    } else if code == 422 {
        "Unprocessable Entity"@
    } else if code == 423 {
        "Locked"@
    } else if code == 424 {
        "Failed Dependency"@
    } else if code == 425 {
        "Too Early"@
    } else if code == 426 {
        "Upgrade Required"@
    } else if code == 428 {
        "Precondition Required"@
    } else if code == 429 {
        "Too Many Requests"@
    } else if code == 431 {
        "Request Header Fields Too Large"@
    } else if code == 451 {
        "Unavailable For Legal Reasons"@
    } else if code == 500 {
        "Internal Server Error"@
    } else if code == 501 {
        "Not Implemented"@
    } else if code == 502 {
        "Bad Gateway"@
    } else if code == 503 {
        "Service Unavailable"@
    } else if code == 504 {
        "Gateway Timeout"@
    } else if code == 505 {
        "HTTP Version Not Supported"@
    } else if code == 506 {
        "Variant Also Negotiates"@
    } else if code == 507 {
        "Insufficient Storage"@
    } else if code == 508 {
        "Loop Detected"@
    } else if code == 510 {
        "Not Extended"@
    } else if code == 511 {
        "Network Authentication Required"@
    } else {
        "<unknown status code>"@
    }
}

fn reason_phrase(code: u16) -> (r: String)
    ensures
        r@ == spec_reason(code),
{
    if code == 100 {
        String::from_str("Continue")
    } else if code == 101 {
        String::from_str("Switching Protocols")
    } else if code == 102 {
        String::from_str("Processing")
    } else if code == 103 {
        String::from_str("Early Hints")
    } else if code == 200 {
        String::from_str("OK")
    } else if code == 201 {
        String::from_str("Created")
    } else if code == 202 {
        String::from_str("Accepted")
    } else if code == 203 {
        String::from_str("Non Authoritative Information")
    } else if code == 204 {
        String::from_str("No Content")
    } else if code == 205 {
        String::from_str("Reset Content")
    } else if code == 206 {
        String::from_str("Partial Content")
    } else if code == 207 {
        String::from_str("Multi-Status")
    } else if code == 208 {
        String::from_str("Already Reported")
    } else if code == 226 {
        String::from_str("IM Used")
    } else if code == 300 {
        String::from_str("Multiple Choices")
    } else if code == 301 {
        String::from_str("Moved Permanently")
    } else if code == 302 {
        String::from_str("Found")
    } else if code == 303 {
        String::from_str("See Other")
    } else if code == 304 {
        String::from_str("Not Modified")
    } else if code == 305 {
        String::from_str("Use Proxy")
    } else if code == 307 {
        String::from_str("Temporary Redirect")
    } else if code == 308 {
        String::from_str("Permanent Redirect")
    } else if code == 400 {
        String::from_str("Bad Request")
    } else if code == 401 {
        String::from_str("Unauthorized")
    } else if code == 402 {
        String::from_str("Payment Required")
    } else if code == 403 {
        String::from_str("Forbidden")
    } else if code == 404 {
        String::from_str("Not Found")
    } else if code == 405 {
        String::from_str("Method Not Allowed")
    } else if code == 406 {
        String::from_str("Not Acceptable")
    } else if code == 407 {
        String::from_str("Proxy Authentication Required")
    } else if code == 408 {
        String::from_str("Request Timeout")
    } else if code == 409 {
        String::from_str("Conflict")
    } else if code == 410 {
        String::from_str("Gone")
    } else if code == 411 {
        String::from_str("Length Required")
    } else if code == 412 {
        String::from_str("Precondition Failed")
    } else if code == 413 {
        String::from_str("Payload Too Large")
    } else if code == 414 {
        String::from_str("URI Too Long")
    } else if code == 415 {
        String::from_str("Unsupported Media Type")
    } else if code == 416 {
        String::from_str("Range Not Satisfiable")
    } else if code == 417 {
        String::from_str("Expectation Failed")
    } else if code == 418 {
        String::from_str("I'm a teapot")
    } else if code == 421 {
        String::from_str("Misdirected Request")
    } else if code == 422 {
        String::from_str("Unprocessable Entity")
    } else if code == 423 {
        String::from_str("Locked")
    } else if code == 424 {
        String::from_str("Failed Dependency")
    } else if code == 425 {
        String::from_str("Too Early")
    } else if code == 426 {
        String::from_str("Upgrade Required")
    } else if code == 428 {
        String::from_str("Precondition Required")
    } else if code == 429 {
        String::from_str("Too Many Requests")
    } else if code == 431 {
        String::from_str("Request Header Fields Too Large")
    } else if code == 451 {
        String::from_str("Unavailable For Legal Reasons")
    } else if code == 500 {
        String::from_str("Internal Server Error")
    } else if code == 501 {
        String::from_str("Not Implemented")
    } else if code == 502 {
        String::from_str("Bad Gateway")
    } else if code == 503 {
        String::from_str("Service Unavailable")
    } else if code == 504 {
        String::from_str("Gateway Timeout")
    } else if code == 505 {
        String::from_str("HTTP Version Not Supported")
    } else if code == 506 {
        String::from_str("Variant Also Negotiates")
    } else if code == 507 {
        String::from_str("Insufficient Storage")
    } else if code == 508 {
        String::from_str("Loop Detected")
    } else if code == 510 {
        String::from_str("Not Extended")
    } else if code == 511 {
        String::from_str("Network Authentication Required")
    } else {
        String::from_str("<unknown status code>")
    }
}

/// `<code> <reason>`: how a status renders in the upstream error message.
pub open spec fn spec_status_line(code: u16) -> Seq<char> {
    spec_u64_chars(code as u64) + seq![' '] + spec_reason(code)
}

/// Renders a status line such as `404 Not Found`.
pub fn status_line(code: u16) -> (r: String)
    ensures
        r@ == spec_status_line(code),
{
    let mut s = u64_to_string(code as u64);
    proof {
        reveal_strlit(" ");
        assert(" "@ =~= seq![' ']);
    }
    s.append(" ");
    let phrase = reason_phrase(code);
    s.append(phrase.as_str());
    s
}

/// The message reported when the upstream answers outside 2xx.
pub open spec fn spec_upstream_error_message(code: u16) -> Seq<char> {
    "Upstream returned error status: "@ + spec_status_line(code)
}

/// Accepts a 2xx upstream status; any other status is the upstream error
/// carrying the status line.
pub fn check_status(status: u16) -> (r: Result<(), AppError>)
    ensures
        200 <= status < 300 ==> r is Ok,
        !(200 <= status < 300) ==> (r matches Result::Err(e) && e matches AppError::Upstream(m)
            && m@ == spec_upstream_error_message(status)),
{
    if 200 <= status && status < 300 {
        Result::Ok(())
    } else {
        let mut m = String::from_str("Upstream returned error status: ");
        let line = status_line(status);
        m.append(line.as_str());
        Result::Err(AppError::Upstream(m))
    }
}

// ---------------------------------------------------------------------------
// Client plans.
// ---------------------------------------------------------------------------
/// Everything the upstream HTTP client is built from: the handshake
/// timeout, the redirect policy, the forward proxy if any, and whether to
/// accept invalid TLS certificates.
#[derive(Debug, Clone)]
pub struct ClientPlan {
    pub connect_timeout: u64,
    pub follow_redirects: bool,
    pub proxy_url: Option<String>,
    pub accept_invalid_certs: bool,
}

/// The plan a configuration and a routing decision produce: without a rule
/// the baseline client with the default forward proxy; with a rule, its
/// proxy (falling back to the default when the rule asks for a proxy but
/// names none) and its TLS policy.
pub open spec fn spec_client_plan(cfg: ProxyConfig, route: Option<ProxyRouteConfig>) -> ClientPlan {
    match route {
        Option::None => ClientPlan {
            connect_timeout: cfg.connect_timeout,
            follow_redirects: cfg.follow_redirects,
            proxy_url: cfg.proxy_url,
            accept_invalid_certs: false,
        },
        Option::Some(rc) => ClientPlan {
            connect_timeout: cfg.connect_timeout,
            follow_redirects: cfg.follow_redirects,
            proxy_url: if rc.proxy {
                if rc.proxy_url is Some {
                    rc.proxy_url
                } else {
                    cfg.proxy_url
                }
            } else {
                Option::None
            },
            accept_invalid_certs: !rc.verify_ssl,
        },
    }
}

fn clone_opt_string(o: &Option<String>) -> (r: Option<String>)
    ensures
        r == *o,
{
    match o {
        Option::Some(s) => Option::Some(s.clone()),
        Option::None => Option::None,
    }
}

/// Builds the client plan for a routing decision; see [`spec_client_plan`].
pub fn plan_client(cfg: &ProxyConfig, route: &Option<ProxyRouteConfig>) -> (r: ClientPlan)
    ensures
        r == spec_client_plan(*cfg, *route),
{
    match route {
        Option::None => ClientPlan {
            connect_timeout: cfg.connect_timeout,
            follow_redirects: cfg.follow_redirects,
            proxy_url: clone_opt_string(&cfg.proxy_url),
            accept_invalid_certs: false,
        },
        Option::Some(rc) => ClientPlan {
            connect_timeout: cfg.connect_timeout,
            follow_redirects: cfg.follow_redirects,
            proxy_url: if rc.proxy {
                match &rc.proxy_url {
                    Option::Some(u) => Option::Some(u.clone()),
                    Option::None => clone_opt_string(&cfg.proxy_url),
                }
            } else {
                Option::None
            },
            accept_invalid_certs: !rc.verify_ssl,
        },
    }
}

// ---------------------------------------------------------------------------
// Progress accounting.
// ---------------------------------------------------------------------------
/// The per-stream byte counter driving the periodic log line.
#[derive(Debug, Clone)]
pub struct ProgressTracker {
    pub total: usize,
    pub buffer_size: usize,
}

impl ProgressTracker {
    /// A fresh counter for one stream.
    pub fn new(buffer_size: usize) -> (r: Self)
        ensures
            r.total == 0,
            r.buffer_size == buffer_size,
    {
        ProgressTracker { total: 0, buffer_size }
    }

    /// The cadence at which a log line is due: every ten buffers of bytes.
    pub open spec fn spec_cadence(&self) -> int {
        if self.buffer_size * 10 > usize::MAX {
            usize::MAX as int
        } else {
            self.buffer_size * 10
        }
    }

    /// Accounts one forwarded chunk; the result says whether the running
    /// total has just crossed onto the log cadence. The total saturates
    /// rather than wraps.
    pub fn record(&mut self, chunk_len: usize) -> (should_log: bool)
        ensures
            final(self).buffer_size == old(self).buffer_size,
            final(self).total == if old(self).total + chunk_len > usize::MAX {
                usize::MAX as int
            } else {
                old(self).total + chunk_len
            },
            should_log == (final(self).spec_cadence() > 0 && final(self).total as int
                % final(self).spec_cadence() == 0),
    {
        self.total = if self.total > usize::MAX - chunk_len {
            usize::MAX
        } else {
            self.total + chunk_len
        };
        let cadence = if self.buffer_size > usize::MAX / 10 {
            usize::MAX
        } else {
            self.buffer_size * 10
        };
        proof {
            assert(cadence == self.spec_cadence());
        }
        if cadence > 0 {
            self.total % cadence == 0
        } else {
            false
        }
    }
}

// ---------------------------------------------------------------------------
// The stream manager and the downstream stream wrapper.
// ---------------------------------------------------------------------------
/// The immutable per-process state of the relay: the proxy configuration
/// and the router derived from it.
#[derive(Debug, Clone)]
pub struct StreamManager {
    config: ProxyConfig,
    proxy_router: ProxyRouter,
}

impl StreamManager {
    pub closed spec fn spec_config(&self) -> ProxyConfig {
        self.config
    }

    pub closed spec fn spec_router(&self) -> ProxyRouter {
        self.proxy_router
    }

    /// Builds the relay state from the proxy configuration.
    pub fn new(config: ProxyConfig) -> (r: Self)
        ensures
            r.spec_config() == config,
            r.spec_router().spec_routes() == crate::router::spec_build_routes(
                config.transport_routes@,
            ),
            r.spec_router().spec_all_proxy() == config.all_proxy,
            r.spec_router().spec_default_proxy() == config.proxy_url,
    {
        let proxy_router = ProxyRouter::from_config(&config);
        StreamManager { config, proxy_router }
    }

    /// The routing decision for a destination URL.
    pub fn route_for(&self, url: &str) -> (r: Option<ProxyRouteConfig>)
        ensures
            r == spec_route_decision(
                self.spec_router().spec_routes(),
                self.spec_router().spec_all_proxy(),
                self.spec_router().spec_default_proxy(),
                url@,
            ),
    {
        self.proxy_router.get_proxy_config(url)
    }

    /// The client plan for a destination URL: the routing decision applied
    /// to the configuration.
    pub fn plan_request(&self, url: &str) -> (r: ClientPlan)
        ensures
            r == spec_client_plan(
                self.spec_config(),
                spec_route_decision(
                    self.spec_router().spec_routes(),
                    self.spec_router().spec_all_proxy(),
                    self.spec_router().spec_default_proxy(),
                    url@,
                ),
            ),
    {
        let route = self.proxy_router.get_proxy_config(url);
        plan_client(&self.config, &route)
    }

    /// A fresh progress counter for one response stream, paced by the
    /// configured buffer size.
    pub fn progress(&self) -> (r: ProgressTracker)
        ensures
            r.total == 0,
            r.buffer_size == self.spec_config().buffer_size,
    {
        ProgressTracker::new(self.config.buffer_size)
    }
}

/// A downstream body stream wrapping its source.
pub struct ResponseStream<S> {
    inner: S,
}

impl<S> ResponseStream<S> {
    pub closed spec fn spec_inner(&self) -> S {
        self.inner
    }

    /// Wraps a chunk source as the downstream body stream.
    pub fn new(stream: S) -> (r: Self)
        ensures
            r.spec_inner() == stream,
    {
        ResponseStream { inner: stream }
    }

    /// Hands the wrapped source back.
    pub fn into_inner(self) -> (r: S)
        ensures
            r == self.spec_inner(),
    {
        self.inner
    }
}

} // verus!
