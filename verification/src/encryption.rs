//! The token envelope: AES-256 applied blockwise over the PKCS#7-padded
//! JSON payload, behind a random prepended initialization vector and
//! URL-safe base64 framing.

use vstd::prelude::*;

use crate::cipher::{
    aes256_dec_block, aes256_enc_block, b64url_decode, b64url_decode_exec, b64url_encode,
    b64url_encode_exec, bytes_to_string, decrypt_block, encrypt_block, random_iv,
};
use crate::clock::now_unix_secs;
use crate::error::AppError;
use crate::json::{
    parse_payload, serialize_payload, spec_parse_payload, spec_payload_json, JsonPayload,
    PayloadView,
};
use vstd::string::StrSliceExecFns;
use vstd::string::StringExecFns;
use vstd::utf8::{decode_utf8, encode_utf8, valid_utf8};

verus! {

/// The authenticated descriptor of a single proxied fetch, carried inside
/// the encrypted token or built from a signed query.
#[derive(Debug, Clone, PartialEq)]
pub struct ProxyData {
    pub destination: String,
    pub query_params: Option<Vec<(String, String)>>,
    pub request_headers: Option<Vec<(String, String)>>,
    pub response_headers: Option<Vec<(String, String)>>,
    pub exp: Option<u64>,
    pub ip: Option<String>,
}

/// The mathematical form of a descriptor: every text is a character string.
pub struct ProxyDataView {
    pub destination: Seq<char>,
    pub query_params: Option<Seq<(Seq<char>, Seq<char>)>>,
    pub request_headers: Option<Seq<(Seq<char>, Seq<char>)>>,
    pub response_headers: Option<Seq<(Seq<char>, Seq<char>)>>,
    pub exp: Option<u64>,
    pub ip: Option<Seq<char>>,
}

pub open spec fn view_str_pairs(v: Seq<(String, String)>) -> Seq<(Seq<char>, Seq<char>)> {
    Seq::new(v.len(), |i: int| (v[i].0@, v[i].1@))
}

pub open spec fn view_opt_str_pairs(v: Option<Vec<(String, String)>>) -> Option<
    Seq<(Seq<char>, Seq<char>)>,
> {
    match v {
        Option::Some(p) => Option::Some(view_str_pairs(p@)),
        Option::None => Option::None,
    }
}

pub open spec fn view_opt_string(v: Option<String>) -> Option<Seq<char>> {
    match v {
        Option::Some(s) => Option::Some(s@),
        Option::None => Option::None,
    }
}

pub open spec fn view_opt_str(v: Option<&str>) -> Option<Seq<char>> {
    match v {
        Option::Some(s) => Option::Some(s@),
        Option::None => Option::None,
    }
}

impl View for ProxyData {
    type V = ProxyDataView;

    open spec fn view(&self) -> ProxyDataView {
        ProxyDataView {
            destination: self.destination@,
            query_params: view_opt_str_pairs(self.query_params),
            request_headers: view_opt_str_pairs(self.request_headers),
            response_headers: view_opt_str_pairs(self.response_headers),
            exp: self.exp,
            ip: view_opt_string(self.ip),
        }
    }
}

// ---------------------------------------------------------------------------
// The byte form of a descriptor: every text as its UTF-8 encoding.
// ---------------------------------------------------------------------------
pub open spec fn utf8_pairs(ps: Seq<(Seq<char>, Seq<char>)>) -> Seq<(Seq<u8>, Seq<u8>)> {
    Seq::new(ps.len(), |i: int| (encode_utf8(ps[i].0), encode_utf8(ps[i].1)))
}

pub open spec fn utf8_opt_pairs(o: Option<Seq<(Seq<char>, Seq<char>)>>) -> Option<
    Seq<(Seq<u8>, Seq<u8>)>,
> {
    match o {
        Option::Some(ps) => Option::Some(utf8_pairs(ps)),
        Option::None => Option::None,
    }
}

pub open spec fn utf8_opt(o: Option<Seq<char>>) -> Option<Seq<u8>> {
    match o {
        Option::Some(s) => Option::Some(encode_utf8(s)),
        Option::None => Option::None,
    }
}

/// The payload record carrying the UTF-8 bytes of a descriptor's texts.
pub open spec fn spec_payload_of(d: ProxyDataView) -> PayloadView {
    PayloadView {
        destination: encode_utf8(d.destination),
        query_params: utf8_opt_pairs(d.query_params),
        request_headers: utf8_opt_pairs(d.request_headers),
        response_headers: utf8_opt_pairs(d.response_headers),
        exp: d.exp,
        ip: utf8_opt(d.ip),
    }
}

fn pairs_to_bytes(ps: &Vec<(String, String)>) -> (r: Vec<(Vec<u8>, Vec<u8>)>)
    ensures
        crate::json::view_pairs(r@) == utf8_pairs(view_str_pairs(ps@)),
{
    let mut out: Vec<(Vec<u8>, Vec<u8>)> = Vec::new();
    let mut i: usize = 0;
    while i < ps.len()
        invariant
            i <= ps@.len(),
            out@.len() == i,
            forall|j: int|
                0 <= j < i ==> #[trigger] out@[j].0@ == encode_utf8(ps@[j].0@) && out@[j].1@
                    == encode_utf8(ps@[j].1@),
        decreases ps@.len() - i,
    {
        let k = ps[i].0.as_str().as_bytes_vec();
        let v = ps[i].1.as_str().as_bytes_vec();
        out.push((k, v));
        i = i + 1;
    }
    proof {
        assert(crate::json::view_pairs(out@) =~= utf8_pairs(view_str_pairs(ps@)));
    }
    out
}

/// Turns a descriptor into the byte payload that the wire format carries.
fn to_payload(d: &ProxyData) -> (r: JsonPayload)
    ensures
        r@ == spec_payload_of(d@),
{
    let destination = d.destination.as_str().as_bytes_vec();
    let query_params = match &d.query_params {
        Option::Some(ps) => Option::Some(pairs_to_bytes(ps)),
        Option::None => Option::None,
    };
    let request_headers = match &d.request_headers {
        Option::Some(ps) => Option::Some(pairs_to_bytes(ps)),
        Option::None => Option::None,
    };
    let response_headers = match &d.response_headers {
        Option::Some(ps) => Option::Some(pairs_to_bytes(ps)),
        Option::None => Option::None,
    };
    let ip = match &d.ip {
        Option::Some(s) => Option::Some(s.as_str().as_bytes_vec()),
        Option::None => Option::None,
    };
    let r = JsonPayload { destination, query_params, request_headers, response_headers, exp: d.exp, ip };
    proof {
        assert(r@ == spec_payload_of(d@));
    }
    r
}

// ---------------------------------------------------------------------------
// PKCS#7 padding with block size 16.
// ---------------------------------------------------------------------------
/// The padding length appended to a plaintext of the given length: always
/// between 1 and 16, bringing the total to a multiple of 16.
pub open spec fn spec_pad_len(n: nat) -> nat {
    (16 - n % 16) as nat
}

/// PKCS#7 padding: append `p` bytes of value `p`.
pub open spec fn spec_pad(s: Seq<u8>) -> Seq<u8> {
    s + Seq::new(spec_pad_len(s.len()), |i: int| spec_pad_len(s.len()) as u8)
}

/// PKCS#7 unpadding: reject a zero, oversized or inconsistent trailer.
pub open spec fn spec_unpad(s: Seq<u8>) -> Option<Seq<u8>> {
    if s.len() == 0 {
        Option::None
    } else {
        let p = s[s.len() - 1] as int;
        if p == 0 || p > 16 || p > s.len() {
            Option::None
        } else if exists|i: int| s.len() - p <= i < s.len() && s[i] != p {
            Option::None
        } else {
            Option::Some(s.take(s.len() - p))
        }
    }
}

/// The padding law: unpadding inverts padding, for every byte string.
pub proof fn lemma_unpad_pad(x: Seq<u8>)
    ensures
        spec_unpad(spec_pad(x)) == Option::Some(x),
{
    let p = spec_pad_len(x.len());
    let s = spec_pad(x);
    assert(1 <= p <= 16);
    assert(s.len() == x.len() + p);
    assert(s[s.len() - 1] == p as u8);
    assert(forall|i: int| s.len() - p <= i < s.len() ==> s[i] == p as u8);
    assert(s.take(s.len() - p as int) =~= x);
}

/// Pads a plaintext to a multiple of the block size.
pub fn pad_data(data: &[u8]) -> (r: Vec<u8>)
    requires
        data@.len() + 16 <= usize::MAX,
    ensures
        r@ == spec_pad(data@),
        r@.len() % 16 == 0,
        r@.len() == data@.len() + spec_pad_len(data@.len()),
{
    let p: usize = 16 - (data.len() % 16);
    let mut out: Vec<u8> = Vec::new();
    out.extend_from_slice(data);
    let mut i: usize = 0;
    while i < p
        invariant
            i <= p,
            p == spec_pad_len(data@.len()),
            out@ == data@ + Seq::new(i as nat, |j: int| p as u8),
        decreases p - i,
    {
        out.push(p as u8);
        proof {
            assert(data@ + Seq::new((i + 1) as nat, |j: int| p as u8) =~= (data@ + Seq::new(
                i as nat,
                |j: int| p as u8,
            )).push(p as u8));
        }
        i = i + 1;
    }
    proof {
        assert(out@ =~= spec_pad(data@));
    }
    out
}

/// Strips and checks PKCS#7 padding.
pub fn unpad_data(data: &[u8]) -> (r: Option<Vec<u8>>)
    ensures
        match r {
            Option::Some(v) => spec_unpad(data@) == Option::Some(v@),
            Option::None => spec_unpad(data@) is None,
        },
{
    if data.len() == 0 {
        return Option::None;
    }
    let p = data[data.len() - 1];
    if p == 0 || p > 16 || (p as usize) > data.len() {
        return Option::None;
    }
    let start = data.len() - (p as usize);
    let mut i: usize = start;
    while i < data.len()
        invariant
            start <= i <= data@.len(),
            start == data@.len() - p,
            p == data@[data@.len() - 1],
            0 < p <= 16,
            p <= data@.len(),
            forall|j: int| start <= j < i ==> data@[j] == p,
        decreases data@.len() - i,
    {
        if data[i] != p {
            return Option::None;
        }
        i = i + 1;
    }
    let mut out: Vec<u8> = Vec::new();
    let prefix = &data[0..start];
    out.extend_from_slice(prefix);
    proof {
        assert(out@ =~= data@.take(data@.len() - (p as int)));
    }
    Option::Some(out)
}

// ---------------------------------------------------------------------------
// Blockwise AES-256 over a padded plaintext.
// ---------------------------------------------------------------------------
/// The concatenation of the encrypted 16-byte blocks of `data`.
pub open spec fn spec_ecb_enc(key: Seq<u8>, data: Seq<u8>) -> Seq<u8>
    decreases data.len(),
{
    if data.len() < 16 {
        Seq::empty()
    } else {
        aes256_enc_block(key, data.take(16)) + spec_ecb_enc(key, data.skip(16))
    }
}

/// The concatenation of the decrypted 16-byte blocks of `data`.
pub open spec fn spec_ecb_dec(key: Seq<u8>, data: Seq<u8>) -> Seq<u8>
    decreases data.len(),
{
    if data.len() < 16 {
        Seq::empty()
    } else {
        aes256_dec_block(key, data.take(16)) + spec_ecb_dec(key, data.skip(16))
    }
}

proof fn lemma_ecb_enc_append(key: Seq<u8>, a: Seq<u8>, b: Seq<u8>)
    requires
        a.len() % 16 == 0,
    ensures
        spec_ecb_enc(key, a + b) == spec_ecb_enc(key, a) + spec_ecb_enc(key, b),
    decreases a.len(),
{
    if a.len() == 0 {
        assert(a + b =~= b);
        assert(spec_ecb_enc(key, a) =~= Seq::<u8>::empty());
        assert(spec_ecb_enc(key, a) + spec_ecb_enc(key, b) =~= spec_ecb_enc(key, b));
    } else {
        assert(a.len() >= 16);
        assert((a + b).take(16) =~= a.take(16));
        assert((a + b).skip(16) =~= a.skip(16) + b);
        assert(a.skip(16).len() % 16 == 0) by {
            assert(a.skip(16).len() == a.len() - 16);
        }
        lemma_ecb_enc_append(key, a.skip(16), b);
        assert(spec_ecb_enc(key, a + b) =~= spec_ecb_enc(key, a) + spec_ecb_enc(key, b));
    }
}

proof fn lemma_ecb_dec_append(key: Seq<u8>, a: Seq<u8>, b: Seq<u8>)
    requires
        a.len() % 16 == 0,
    ensures
        spec_ecb_dec(key, a + b) == spec_ecb_dec(key, a) + spec_ecb_dec(key, b),
    decreases a.len(),
{
    if a.len() == 0 {
        assert(a + b =~= b);
        assert(spec_ecb_dec(key, a) =~= Seq::<u8>::empty());
        assert(spec_ecb_dec(key, a) + spec_ecb_dec(key, b) =~= spec_ecb_dec(key, b));
    } else {
        assert(a.len() >= 16);
        assert((a + b).take(16) =~= a.take(16));
        assert((a + b).skip(16) =~= a.skip(16) + b);
        assert(a.skip(16).len() % 16 == 0) by {
            assert(a.skip(16).len() == a.len() - 16);
        }
        lemma_ecb_dec_append(key, a.skip(16), b);
        assert(spec_ecb_dec(key, a + b) =~= spec_ecb_dec(key, a) + spec_ecb_dec(key, b));
    }
}

proof fn lemma_ecb_enc_single(key: Seq<u8>, block: Seq<u8>)
    requires
        block.len() == 16,
    ensures
        spec_ecb_enc(key, block) == aes256_enc_block(key, block),
{
    assert(block.take(16) =~= block);
    assert(block.skip(16) =~= Seq::<u8>::empty());
    assert(spec_ecb_enc(key, block.skip(16)) =~= Seq::<u8>::empty());
    assert(spec_ecb_enc(key, block) =~= aes256_enc_block(key, block));
}

proof fn lemma_ecb_dec_single(key: Seq<u8>, block: Seq<u8>)
    requires
        block.len() == 16,
    ensures
        spec_ecb_dec(key, block) == aes256_dec_block(key, block),
{
    assert(block.take(16) =~= block);
    assert(block.skip(16) =~= Seq::<u8>::empty());
    assert(spec_ecb_dec(key, block.skip(16)) =~= Seq::<u8>::empty());
    assert(spec_ecb_dec(key, block) =~= aes256_dec_block(key, block));
}

/// Encrypts a padded plaintext block by block; decrypting the result under
/// the same key gives the plaintext back.
fn ecb_encrypt(key: &[u8], data: &[u8]) -> (r: Vec<u8>)
    requires
        key@.len() == 32,
        data@.len() % 16 == 0,
    ensures
        r@ == spec_ecb_enc(key@, data@),
        r@.len() == data@.len(),
        spec_ecb_dec(key@, r@) == data@,
{
    let mut out: Vec<u8> = Vec::new();
    let mut i: usize = 0;
    while i < data.len()
        invariant
            key@.len() == 32,
            data@.len() % 16 == 0,
            i % 16 == 0,
            i <= data@.len(),
            out@ == spec_ecb_enc(key@, data@.take(i as int)),
            out@.len() == i,
            spec_ecb_dec(key@, out@) == data@.take(i as int),
        decreases data@.len() - i,
    {
        proof {
            assert((data@.len() - i) % 16 == 0);
            assert(i + 16 <= data@.len());
        }
        let block = &data[i..i + 16];
        let enc = encrypt_block(key, block);
        let ghost old_out = out@;
        out.extend_from_slice(enc.as_slice());
        proof {
            let bl = data@.subrange(i as int, i + 16);
            assert(data@.take(i + 16) =~= data@.take(i as int) + bl);
            lemma_ecb_enc_append(key@, data@.take(i as int), bl);
            lemma_ecb_enc_single(key@, bl);
            assert(out@ =~= spec_ecb_enc(key@, data@.take(i + 16)));
            lemma_ecb_dec_append(key@, old_out, enc@);
            lemma_ecb_dec_single(key@, enc@);
            assert(spec_ecb_dec(key@, out@) =~= data@.take(i + 16));
        }
        i = i + 16;
    }
    proof {
        assert(i == data@.len());
        assert(data@.take(i as int) =~= data@);
    }
    out
}

/// Decrypts a ciphertext block by block.
fn ecb_decrypt(key: &[u8], data: &[u8]) -> (r: Vec<u8>)
    requires
        key@.len() == 32,
        data@.len() % 16 == 0,
    ensures
        r@ == spec_ecb_dec(key@, data@),
        r@.len() == data@.len(),
{
    let mut out: Vec<u8> = Vec::new();
    let mut i: usize = 0;
    while i < data.len()
        invariant
            key@.len() == 32,
            data@.len() % 16 == 0,
            i % 16 == 0,
            i <= data@.len(),
            out@ == spec_ecb_dec(key@, data@.take(i as int)),
            out@.len() == i,
        decreases data@.len() - i,
    {
        proof {
            assert((data@.len() - i) % 16 == 0);
            assert(i + 16 <= data@.len());
        }
        let block = &data[i..i + 16];
        let dec = decrypt_block(key, block);
        out.extend_from_slice(dec.as_slice());
        proof {
            let bl = data@.subrange(i as int, i + 16);
            assert(data@.take(i + 16) =~= data@.take(i as int) + bl);
            lemma_ecb_dec_append(key@, data@.take(i as int), bl);
            lemma_ecb_dec_single(key@, bl);
            assert(out@ =~= spec_ecb_dec(key@, data@.take(i + 16)));
        }
        i = i + 16;
    }
    proof {
        assert(i == data@.len());
        assert(data@.take(i as int) =~= data@);
    }
    out
}

// ---------------------------------------------------------------------------
// Key derivation.
// ---------------------------------------------------------------------------
/// The AES key of a password: truncated to, or zero-padded up to, 32 bytes.
pub open spec fn spec_derive_key(p: Seq<u8>) -> Seq<u8> {
    if p.len() >= 32 {
        p.take(32)
    } else {
        p + Seq::new((32 - p.len()) as nat, |i: int| 0u8)
    }
}

fn derive_key(password: &[u8]) -> (r: Vec<u8>)
    ensures
        r@ == spec_derive_key(password@),
        r@.len() == 32,
{
    let mut key: Vec<u8> = Vec::new();
    if password.len() >= 32 {
        let head = &password[0..32];
        key.extend_from_slice(head);
        proof {
            assert(key@ =~= spec_derive_key(password@));
        }
    } else {
        key.extend_from_slice(password);
        let pad: usize = 32 - password.len();
        let mut i: usize = 0;
        while i < pad
            invariant
                i <= pad,
                pad == 32 - password@.len(),
                key@ == password@ + Seq::new(i as nat, |j: int| 0u8),
            decreases pad - i,
        {
            key.push(0);
            proof {
                assert(password@ + Seq::new((i + 1) as nat, |j: int| 0u8) =~= (password@
                    + Seq::new(i as nat, |j: int| 0u8)).push(0u8));
            }
            i = i + 1;
        }
        proof {
            assert(key@ =~= spec_derive_key(password@));
        }
    }
    key
}


// ---------------------------------------------------------------------------
// The envelope handler.
// ---------------------------------------------------------------------------
/// The ways token decryption fails, in the order the checks run.
#[derive(Debug, PartialEq, Eq, Structural, Clone, Copy)]
pub enum TokenError {
    InvalidFormat,
    TooShort,
    InvalidPadding,
    InvalidPayload,
    Expired,
    IpMismatch,
}

impl TokenError {
    /// The message shown to the client for this failure.
    pub open spec fn spec_message(self) -> Seq<char> {
        match self {
            TokenError::InvalidFormat => "Invalid token format"@,
            TokenError::TooShort => "Token too short"@,
            TokenError::InvalidPadding => "Invalid padding"@,
            TokenError::InvalidPayload => "Invalid token data"@,
            TokenError::Expired => "Token has expired"@,
            TokenError::IpMismatch => "IP mismatch"@,
        }
    }

    /// Whether an application error is the authentication error carrying
    /// this failure's message.
    pub open spec fn matches_app_error(self, e: AppError) -> bool {
        e matches AppError::Auth(m) && m@ == self.spec_message()
    }

    /// Renders this failure as the authentication error the proxy reports.
    pub fn to_app_error(self) -> (r: AppError)
        ensures
            self.matches_app_error(r),
    {
        match self {
            TokenError::InvalidFormat => AppError::Auth(String::from_str("Invalid token format")),
            TokenError::TooShort => AppError::Auth(String::from_str("Token too short")),
            TokenError::InvalidPadding => AppError::Auth(String::from_str("Invalid padding")),
            TokenError::InvalidPayload => AppError::Auth(String::from_str("Invalid token data")),
            TokenError::Expired => AppError::Auth(String::from_str("Token has expired")),
            TokenError::IpMismatch => AppError::Auth(String::from_str("IP mismatch")),
        }
    }
}

pub open spec fn pairs_utf8_ok(ps: Seq<(Seq<u8>, Seq<u8>)>) -> bool {
    forall|i: int|
        0 <= i < ps.len() ==> valid_utf8(#[trigger] ps[i].0) && valid_utf8(ps[i].1)
}

pub open spec fn opt_pairs_utf8_ok(o: Option<Seq<(Seq<u8>, Seq<u8>)>>) -> bool {
    match o {
        Option::Some(ps) => pairs_utf8_ok(ps),
        Option::None => true,
    }
}

pub open spec fn opt_utf8_ok(o: Option<Seq<u8>>) -> bool {
    match o {
        Option::Some(s) => valid_utf8(s),
        Option::None => true,
    }
}

/// Whether every text of a parsed payload is valid UTF-8.
pub open spec fn payload_utf8_ok(pv: PayloadView) -> bool {
    valid_utf8(pv.destination) && opt_pairs_utf8_ok(pv.query_params) && opt_pairs_utf8_ok(
        pv.request_headers,
    ) && opt_pairs_utf8_ok(pv.response_headers) && opt_utf8_ok(pv.ip)
}

pub open spec fn decode_pairs(ps: Seq<(Seq<u8>, Seq<u8>)>) -> Seq<(Seq<char>, Seq<char>)> {
    Seq::new(ps.len(), |i: int| (decode_utf8(ps[i].0), decode_utf8(ps[i].1)))
}

pub open spec fn decode_opt_pairs(o: Option<Seq<(Seq<u8>, Seq<u8>)>>) -> Option<
    Seq<(Seq<char>, Seq<char>)>,
> {
    match o {
        Option::Some(ps) => Option::Some(decode_pairs(ps)),
        Option::None => Option::None,
    }
}

pub open spec fn decode_opt(o: Option<Seq<u8>>) -> Option<Seq<char>> {
    match o {
        Option::Some(s) => Option::Some(decode_utf8(s)),
        Option::None => Option::None,
    }
}

/// The descriptor a UTF-8-clean payload denotes.
pub open spec fn spec_payload_decode(pv: PayloadView) -> ProxyDataView {
    ProxyDataView {
        destination: decode_utf8(pv.destination),
        query_params: decode_opt_pairs(pv.query_params),
        request_headers: decode_opt_pairs(pv.request_headers),
        response_headers: decode_opt_pairs(pv.response_headers),
        exp: pv.exp,
        ip: decode_opt(pv.ip),
    }
}

/// The exact wire image of a token for a given initialization vector: the
/// base64url text of the vector followed by the blockwise encryption of the
/// padded payload JSON, which decodes back to those bytes. The ciphertext
/// region is a function of the key and the payload alone; only the vector
/// is fresh per encryption.
pub open spec fn spec_token_wire(
    token: Seq<char>,
    iv: Seq<u8>,
    key: Seq<u8>,
    pv: PayloadView,
) -> bool {
    let ct = spec_ecb_enc(key, spec_pad(spec_payload_json(pv)));
    &&& iv.len() == 16
    &&& ct.len() == spec_pad(spec_payload_json(pv)).len()
    &&& token == b64url_encode(iv + ct)
    &&& b64url_decode(token) == Option::Some(iv + ct)
}

/// The payload a well-formed token carries under a key: base64url framing,
/// a 16-byte initialization vector, blockwise decryption, unpadding and the
/// JSON grammar.
pub open spec fn spec_token_payload(token: Seq<char>, key: Seq<u8>) -> Option<PayloadView> {
    match b64url_decode(token) {
        Option::None => Option::None,
        Option::Some(raw) => if raw.len() < 16 || (raw.len() - 16) % 16 != 0 {
            Option::None
        } else {
            match spec_unpad(spec_ecb_dec(key, raw.skip(16))) {
                Option::None => Option::None,
                Option::Some(plain) => spec_parse_payload(plain),
            }
        },
    }
}

/// The complete outcome of decrypting a token under a key at a given time
/// and for a given observed client address.
pub open spec fn spec_decrypt_at(
    token: Seq<char>,
    key: Seq<u8>,
    client_ip: Option<Seq<char>>,
    now: u64,
) -> Result<ProxyDataView, TokenError> {
    match b64url_decode(token) {
        Option::None => Result::Err(TokenError::InvalidFormat),
        Option::Some(raw) => if raw.len() < 16 {
            Result::Err(TokenError::TooShort)
        } else if (raw.len() - 16) % 16 != 0 {
            Result::Err(TokenError::InvalidPadding)
        } else {
            match spec_unpad(spec_ecb_dec(key, raw.skip(16))) {
                Option::None => Result::Err(TokenError::InvalidPadding),
                Option::Some(plain) => match spec_parse_payload(plain) {
                    Option::None => Result::Err(TokenError::InvalidPayload),
                    Option::Some(pv) => if !payload_utf8_ok(pv) {
                        Result::Err(TokenError::InvalidPayload)
                    } else {
                        let d = spec_payload_decode(pv);
                        if d.exp matches Option::Some(e) && e < now {
                            Result::Err(TokenError::Expired)
                        } else if d.ip matches Option::Some(a) && client_ip matches Option::Some(
                            b,
                        ) && a != b {
                            Result::Err(TokenError::IpMismatch)
                        } else {
                            Result::Ok(d)
                        }
                    },
                },
            }
        },
    }
}

fn bytes_pairs_to_strings(ps: Vec<(Vec<u8>, Vec<u8>)>) -> (r: Option<Vec<(String, String)>>)
    ensures
        match r {
            Option::Some(v) => pairs_utf8_ok(crate::json::view_pairs(ps@)) && view_str_pairs(v@)
                == decode_pairs(crate::json::view_pairs(ps@)),
            Option::None => !pairs_utf8_ok(crate::json::view_pairs(ps@)),
        },
{
    let mut out: Vec<(String, String)> = Vec::new();
    let mut i: usize = 0;
    while i < ps.len()
        invariant
            i <= ps@.len(),
            out@.len() == i,
            forall|j: int| #![all_triggers]
                0 <= j < i ==> valid_utf8(ps@[j].0@) && valid_utf8(ps@[j].1@),
            forall|j: int| #![all_triggers]
                0 <= j < i ==> out@[j].0@ == decode_utf8(ps@[j].0@) && out@[j].1@
                    == decode_utf8(ps@[j].1@),
        decreases ps@.len() - i,
    {
        let k = vstd::slice::slice_to_vec(ps[i].0.as_slice());
        let v = vstd::slice::slice_to_vec(ps[i].1.as_slice());
        let ks = match bytes_to_string(k) {
            Option::Some(s) => s,
            Option::None => {
                proof {
                    assert(crate::json::view_pairs(ps@)[i as int].0 == ps@[i as int].0@);
                    assert(!pairs_utf8_ok(crate::json::view_pairs(ps@)));
                }
                return Option::None;
            },
        };
        let vs = match bytes_to_string(v) {
            Option::Some(s) => s,
            Option::None => {
                proof {
                    assert(crate::json::view_pairs(ps@)[i as int].0 == ps@[i as int].0@);
                    assert(crate::json::view_pairs(ps@)[i as int].1 == ps@[i as int].1@);
                    assert(!pairs_utf8_ok(crate::json::view_pairs(ps@)));
                }
                return Option::None;
            },
        };
        out.push((ks, vs));
        proof {
            assert(k@ == ps@[i as int].0@);
            assert(v@ == ps@[i as int].1@);
            assert(valid_utf8(ps@[i as int].0@) && valid_utf8(ps@[i as int].1@));
            assert(out@[i as int].0@ == decode_utf8(ps@[i as int].0@));
            assert(out@[i as int].1@ == decode_utf8(ps@[i as int].1@));
        }
        i = i + 1;
    }
    proof {
        assert(view_str_pairs(out@) =~= decode_pairs(crate::json::view_pairs(ps@)));
    }
    Option::Some(out)
}

/// Rebuilds a descriptor from a parsed payload, rejecting text that is not
/// valid UTF-8.
fn payload_to_data(p: JsonPayload) -> (r: Option<ProxyData>)
    ensures
        match r {
            Option::Some(d) => payload_utf8_ok(p@) && d@ == spec_payload_decode(p@),
            Option::None => !payload_utf8_ok(p@),
        },
{
    let destination = match bytes_to_string(p.destination) {
        Option::Some(s) => s,
        Option::None => {
            return Option::None;
        },
    };
    let query_params = match p.query_params {
        Option::Some(ps) => match bytes_pairs_to_strings(ps) {
            Option::Some(v) => Option::Some(v),
            Option::None => {
                return Option::None;
            },
        },
        Option::None => Option::None,
    };
    let request_headers = match p.request_headers {
        Option::Some(ps) => match bytes_pairs_to_strings(ps) {
            Option::Some(v) => Option::Some(v),
            Option::None => {
                return Option::None;
            },
        },
        Option::None => Option::None,
    };
    let response_headers = match p.response_headers {
        Option::Some(ps) => match bytes_pairs_to_strings(ps) {
            Option::Some(v) => Option::Some(v),
            Option::None => {
                return Option::None;
            },
        },
        Option::None => Option::None,
    };
    let ip = match p.ip {
        Option::Some(b) => match bytes_to_string(b) {
            Option::Some(s) => Option::Some(s),
            Option::None => {
                return Option::None;
            },
        },
        Option::None => Option::None,
    };
    Option::Some(ProxyData { destination, query_params, request_headers, response_headers, exp: p.exp, ip })
}

/// The symmetric envelope keyed by the shared password.
#[derive(Clone)]
pub struct EncryptionHandler {
    key: Vec<u8>,
}

impl EncryptionHandler {
    /// The 32-byte AES key in use.
    pub closed spec fn spec_key(&self) -> Seq<u8> {
        self.key@
    }

    /// A handler is well formed when its key has the cipher's size.
    pub open spec fn wf(&self) -> bool {
        self.spec_key().len() == 32
    }

    /// Builds a handler from the shared password (see [`spec_derive_key`]).
    pub fn new(api_password: &[u8]) -> (r: Result<Self, AppError>)
        ensures
            r matches Result::Ok(h) && h.wf() && h.spec_key() == spec_derive_key(api_password@),
    {
        Result::Ok(EncryptionHandler { key: derive_key(api_password) })
    }

    /// Serializes, pads, encrypts and frames a descriptor. Any token
    /// returned carries exactly the descriptor's payload: decoding the
    /// token under the same key gives the payload back, and the token's
    /// wire image is the framing of [`spec_token_wire`] for some fresh
    /// initialization vector.
    pub fn encrypt(&self, data: &ProxyData) -> (r: Result<String, AppError>)
        requires
            self.wf(),
        ensures
            r matches Result::Ok(token) ==> spec_token_payload(token@, self.spec_key())
                == Option::Some(spec_payload_of(data@)),
            r matches Result::Ok(token) ==> exists|iv: Seq<u8>|
                #[trigger] spec_token_wire(token@, iv, self.spec_key(), spec_payload_of(data@)),
            spec_payload_json(spec_payload_of(data@)).len() + 16 <= usize::MAX ==> r is Ok,
    {
        let payload = to_payload(data);
        let json = serialize_payload(&payload);
        if json.len() > usize::MAX - 16 {
            return Result::Err(AppError::Internal(String::from_str("payload too large")));
        }
        let padded = pad_data(json.as_slice());
        let ct = ecb_encrypt(self.key.as_slice(), padded.as_slice());
        let mut tok_bytes = random_iv();
        let ghost iv = tok_bytes@;
        tok_bytes.extend_from_slice(ct.as_slice());
        let token = b64url_encode_exec(tok_bytes.as_slice());
        proof {
            assert(tok_bytes@ =~= iv + ct@);
            assert(tok_bytes@.skip(16) =~= ct@);
            lemma_unpad_pad(json@);
            crate::json::lemma_parse_payload_roundtrip(payload@);
            assert((tok_bytes@.len() - 16) % 16 == 0);
            assert(spec_token_wire(token@, iv, self.spec_key(), spec_payload_of(data@)));
        }
        Result::Ok(token)
    }

    /// Decrypts and validates a token at an explicit time: the result is
    /// exactly [`spec_decrypt_at`] of the token, key, observed address and
    /// time.
    pub fn decrypt_at(&self, token: &str, client_ip: Option<&str>, now: u64) -> (r: Result<
        ProxyData,
        TokenError,
    >)
        requires
            self.wf(),
        ensures
            match r {
                Result::Ok(d) => spec_decrypt_at(
                    token@,
                    self.spec_key(),
                    view_opt_str(client_ip),
                    now,
                ) == Result::Ok::<ProxyDataView, TokenError>(d@),
                Result::Err(e) => spec_decrypt_at(
                    token@,
                    self.spec_key(),
                    view_opt_str(client_ip),
                    now,
                ) == Result::Err::<ProxyDataView, TokenError>(e),
            },
    {
        let raw = match b64url_decode_exec(token) {
            Option::None => {
                return Result::Err(TokenError::InvalidFormat);
            },
            Option::Some(v) => v,
        };
        if raw.len() < 16 {
            return Result::Err(TokenError::TooShort);
        }
        if (raw.len() - 16) % 16 != 0 {
            return Result::Err(TokenError::InvalidPadding);
        }
        let ct = &raw.as_slice()[16..raw.len()];
        proof {
            assert(ct@ =~= raw@.skip(16));
        }
        let plain_padded = ecb_decrypt(self.key.as_slice(), ct);
        let plain = match unpad_data(plain_padded.as_slice()) {
            Option::None => {
                return Result::Err(TokenError::InvalidPadding);
            },
            Option::Some(p) => p,
        };
        let jp = match parse_payload(plain.as_slice()) {
            Option::None => {
                return Result::Err(TokenError::InvalidPayload);
            },
            Option::Some(p) => p,
        };
        let d = match payload_to_data(jp) {
            Option::None => {
                return Result::Err(TokenError::InvalidPayload);
            },
            Option::Some(d) => d,
        };
        if let Option::Some(e) = d.exp {
            if e < now {
                return Result::Err(TokenError::Expired);
            }
        }
        match (&d.ip, client_ip) {
            (Option::Some(tok_ip), Option::Some(cip)) => {
                let cips = cip.to_owned();
                let same = *tok_ip == cips;
                if !same {
                    return Result::Err(TokenError::IpMismatch);
                }
            },
            _ => {},
        }
        Result::Ok(d)
    }

    /// Decrypts and validates a token at the present moment. The outcome is
    /// [`spec_decrypt_at`] for the time the clock returned, each failure
    /// mapped to the authentication error carrying its message.
    pub fn decrypt(&self, token: &str, client_ip: Option<&str>) -> (r: Result<
        ProxyData,
        AppError,
    >)
        requires
            self.wf(),
        ensures
            exists|now: u64|
                #[trigger] decrypt_result_matches(
                    r,
                    token@,
                    self.spec_key(),
                    view_opt_str(client_ip),
                    now,
                ),
    {
        let now = now_unix_secs();
        let r = match self.decrypt_at(token, client_ip, now) {
            Result::Ok(d) => Result::Ok(d),
            Result::Err(e) => Result::Err(e.to_app_error()),
        };
        proof {
            assert(decrypt_result_matches(
                r,
                token@,
                self.spec_key(),
                view_opt_str(client_ip),
                now,
            ));
        }
        r
    }
}

/// Whether a decryption outcome agrees with [`spec_decrypt_at`] at the
/// given time, failures carried as authentication errors.
pub open spec fn decrypt_result_matches(
    r: Result<ProxyData, AppError>,
    token: Seq<char>,
    key: Seq<u8>,
    client_ip: Option<Seq<char>>,
    now: u64,
) -> bool {
    match r {
        Result::Ok(d) => spec_decrypt_at(token, key, client_ip, now) == Result::Ok::<
            ProxyDataView,
            TokenError,
        >(d@),
        Result::Err(e) => spec_decrypt_at(token, key, client_ip, now) matches Result::Err(te)
            && te.matches_app_error(e),
    }
}

// ---------------------------------------------------------------------------
// The laws of the envelope.
// ---------------------------------------------------------------------------
/// A descriptor's own payload is UTF-8-clean and decodes back to the
/// descriptor.
pub proof fn lemma_payload_decode_of(d: ProxyDataView)
    ensures
        payload_utf8_ok(spec_payload_of(d)),
        spec_payload_decode(spec_payload_of(d)) == d,
{
    broadcast use vstd::utf8::encode_utf8_valid_utf8, vstd::utf8::encode_utf8_decode_utf8;

    let pv = spec_payload_of(d);
    match d.query_params {
        Option::Some(ps) => {
            assert(decode_pairs(utf8_pairs(ps)) =~= ps);
        },
        Option::None => {},
    }
    match d.request_headers {
        Option::Some(ps) => {
            assert(decode_pairs(utf8_pairs(ps)) =~= ps);
        },
        Option::None => {},
    }
    match d.response_headers {
        Option::Some(ps) => {
            assert(decode_pairs(utf8_pairs(ps)) =~= ps);
        },
        Option::None => {},
    }
    assert(spec_payload_decode(pv) == d);
}

/// Round trip: a token carrying a descriptor's payload decrypts back to
/// exactly that descriptor, at any time not after its expiry and for any
/// compatible observed address.
pub proof fn lemma_decrypt_roundtrip(
    token: Seq<char>,
    key: Seq<u8>,
    d: ProxyDataView,
    client_ip: Option<Seq<char>>,
    now: u64,
)
    requires
        spec_token_payload(token, key) == Option::Some(spec_payload_of(d)),
        d.exp matches Option::Some(e) ==> now <= e,
        d.ip is Some && client_ip is Some ==> d.ip->0 == client_ip->0,
    ensures
        spec_decrypt_at(token, key, client_ip, now) == Result::Ok::<ProxyDataView, TokenError>(d),
{
    lemma_payload_decode_of(d);
}

/// Expiry: a token whose payload expires before the given time decrypts to
/// `Expired`, whatever the observed address.
pub proof fn lemma_decrypt_expired(
    token: Seq<char>,
    key: Seq<u8>,
    d: ProxyDataView,
    client_ip: Option<Seq<char>>,
    now: u64,
)
    requires
        spec_token_payload(token, key) == Option::Some(spec_payload_of(d)),
        d.exp matches Option::Some(e) && e < now,
    ensures
        spec_decrypt_at(token, key, client_ip, now) == Result::Err::<ProxyDataView, TokenError>(
            TokenError::Expired,
        ),
{
    lemma_payload_decode_of(d);
}

/// Address binding, first half: a token bound to one address decrypts to
/// `IpMismatch` when observed from any other.
pub proof fn lemma_decrypt_ip_mismatch(
    token: Seq<char>,
    key: Seq<u8>,
    d: ProxyDataView,
    observed: Seq<char>,
    now: u64,
)
    requires
        spec_token_payload(token, key) == Option::Some(spec_payload_of(d)),
        d.exp matches Option::Some(e) ==> now <= e,
        d.ip is Some,
        observed != d.ip->0,
    ensures
        spec_decrypt_at(token, key, Option::Some(observed), now) == Result::Err::<
            ProxyDataView,
            TokenError,
        >(TokenError::IpMismatch),
{
    lemma_payload_decode_of(d);
}

/// Address binding, second half: with no observed address the binding is
/// not checked and decryption succeeds.
pub proof fn lemma_decrypt_ip_unchecked(token: Seq<char>, key: Seq<u8>, d: ProxyDataView, now: u64)
    requires
        spec_token_payload(token, key) == Option::Some(spec_payload_of(d)),
        d.exp matches Option::Some(e) ==> now <= e,
    ensures
        spec_decrypt_at(token, key, Option::None, now) == Result::Ok::<ProxyDataView, TokenError>(
            d,
        ),
{
    lemma_decrypt_roundtrip(token, key, d, Option::None, now);
}

} // verus!
