//! The authorization layer: the per-request decision whether a request may pass, and
//! with which descriptor. Open endpoints bypass it; an empty shared secret
//! disables it; otherwise a request passes with a valid encrypted token or
//! with the signed query naming the password and a destination.

use vstd::prelude::*;

use crate::encryption::{
    spec_decrypt_at, spec_derive_key, view_opt_str, view_str_pairs, EncryptionHandler, ProxyData,
    ProxyDataView, TokenError,
};
use crate::error::AppError;
use crate::query::{
    extract_query_params, find_param, spec_find_param, spec_parse_query, spec_strip_prefixed,
    str_eq, strip_prefixed_pairs,
};
use vstd::string::StringExecFns;
use vstd::utf8::encode_utf8;

verus! {

/// Why a request was turned away.
#[derive(Debug, PartialEq, Eq, Structural, Clone, Copy)]
pub enum AuthDenial {
    /// The token failed to decrypt or validate.
    Token(TokenError),
    /// Neither a valid token nor the correct password was presented.
    Unauthorized,
    /// The signed query carried the password but named no destination.
    MissingDestination,
}

impl AuthDenial {
    pub open spec fn spec_message(self) -> Seq<char> {
        match self {
            AuthDenial::Token(te) => te.spec_message(),
            AuthDenial::Unauthorized => "Invalid or missing authentication"@,
            AuthDenial::MissingDestination => "Missing destination"@,
        }
    }

    pub open spec fn matches_app_error(self, e: AppError) -> bool {
        e matches AppError::Auth(m) && m@ == self.spec_message()
    }

    pub fn to_app_error(self) -> (r: AppError)
        ensures
            self.matches_app_error(r),
    {
        match self {
            AuthDenial::Token(te) => te.to_app_error(),
            AuthDenial::Unauthorized => AppError::Auth(
                String::from_str("Invalid or missing authentication"),
            ),
            AuthDenial::MissingDestination => AppError::Auth(
                String::from_str("Missing destination"),
            ),
        }
    }
}

/// The `api_password` entry of a descriptor's query parameters, if any.
pub open spec fn spec_qp_password(d: ProxyDataView) -> Option<Seq<char>> {
    match d.query_params {
        Option::Some(ps) => spec_find_param(ps, "api_password"@),
        Option::None => Option::None,
    }
}

/// The descriptor a signed query produces: the named destination, all
/// parsed parameters, and the `h_`/`r_` header overrides, unbound by
/// expiry or address.
pub open spec fn spec_signed_data(
    params: Seq<(Seq<char>, Seq<char>)>,
    dest: Seq<char>,
) -> ProxyDataView {
    ProxyDataView {
        destination: dest,
        query_params: Option::Some(params),
        request_headers: Option::Some(spec_strip_prefixed(params, 'h', '_')),
        response_headers: Option::Some(spec_strip_prefixed(params, 'r', '_')),
        exp: Option::None,
        ip: Option::None,
    }
}

/// The whole authorization decision, for a given clock reading.
pub open spec fn spec_authorize(
    password: Seq<char>,
    path: Seq<char>,
    query: Seq<char>,
    client_ip: Option<Seq<char>>,
    now: u64,
) -> Result<Option<ProxyDataView>, AuthDenial> {
    if path == "/proxy/generate_url"@ || path == "/health"@ {
        Result::Ok(Option::None)
    } else if password.len() == 0 {
        Result::Ok(Option::None)
    } else {
        let params = spec_parse_query(encode_utf8(query));
        match spec_find_param(params, "token"@) {
            Option::Some(tok) => match spec_decrypt_at(
                tok,
                spec_derive_key(encode_utf8(password)),
                client_ip,
                now,
            ) {
                Result::Err(te) => Result::Err(AuthDenial::Token(te)),
                Result::Ok(d) => if spec_qp_password(d) == Option::Some(password) {
                    Result::Ok(Option::Some(d))
                } else {
                    Result::Err(AuthDenial::Unauthorized)
                },
            },
            Option::None => match spec_find_param(params, "api_password"@) {
                Option::Some(pw) => if pw == password {
                    match spec_find_param(params, "d"@) {
                        Option::Some(dest) => Result::Ok(
                            Option::Some(spec_signed_data(params, dest)),
                        ),
                        Option::None => Result::Err(AuthDenial::MissingDestination),
                    }
                } else {
                    Result::Err(AuthDenial::Unauthorized)
                },
                Option::None => Result::Err(AuthDenial::Unauthorized),
            },
        }
    }
}

/// The authorizer itself: the shared secret and, when it is set, the envelope
/// handler derived from it.
#[derive(Clone)]
pub struct AuthMiddleware {
    encryption_handler: Option<EncryptionHandler>,
    api_password: String,
}

impl AuthMiddleware {
    pub closed spec fn spec_password(&self) -> Seq<char> {
        self.api_password@
    }

    /// The handler exists exactly when the secret is set, and is keyed by
    /// it.
    pub closed spec fn wf(&self) -> bool {
        &&& (self.api_password@.len() == 0 <==> self.encryption_handler is None)
        &&& match self.encryption_handler {
            Option::Some(h) => h.wf() && h.spec_key() == spec_derive_key(
                encode_utf8(self.api_password@),
            ),
            Option::None => true,
        }
    }

    /// Builds the authorizer from the shared secret.
    pub fn new(api_password: String) -> (r: Self)
        ensures
            r.wf(),
            r.spec_password() == api_password@,
    {
        let encryption_handler = if api_password.as_str().unicode_len() > 0 {
            match EncryptionHandler::new(api_password.as_str().as_bytes()) {
                Result::Ok(h) => Option::Some(h),
                Result::Err(_) => Option::None,
            }
        } else {
            Option::None
        };
        proof {
            if api_password@.len() == 0 {
                assert(encryption_handler is None);
            }
        }
        AuthMiddleware { encryption_handler, api_password }
    }

    /// Decides a request at an explicit time; see [`spec_authorize`].
    pub fn authorize(&self, path: &str, query: &str, client_ip: Option<&str>, now: u64) -> (r:
        Result<Option<ProxyData>, AppError>)
        requires
            self.wf(),
        ensures
            match r {
                Result::Ok(Option::None) => spec_authorize(
                    self.spec_password(),
                    path@,
                    query@,
                    view_opt_str(client_ip),
                    now,
                ) == Result::Ok::<Option<ProxyDataView>, AuthDenial>(Option::None),
                Result::Ok(Option::Some(d)) => spec_authorize(
                    self.spec_password(),
                    path@,
                    query@,
                    view_opt_str(client_ip),
                    now,
                ) == Result::Ok::<Option<ProxyDataView>, AuthDenial>(Option::Some(d@)),
                Result::Err(e) => spec_authorize(
                    self.spec_password(),
                    path@,
                    query@,
                    view_opt_str(client_ip),
                    now,
                ) matches Result::Err(dn) && dn.matches_app_error(e),
            },
    {
        if str_eq(path, "/proxy/generate_url") || str_eq(path, "/health") {
            return Result::Ok(Option::None);
        }
        if self.api_password.as_str().unicode_len() == 0 {
            return Result::Ok(Option::None);
        }
        let params = extract_query_params(query);
        match find_param(&params, "token") {
            Option::Some(tok) => {
                let handler = match &self.encryption_handler {
                    Option::Some(h) => h,
                    Option::None => {
                        proof {
                            assert(false);
                        }
                        return Result::Err(AuthDenial::Unauthorized.to_app_error());
                    },
                };
                match handler.decrypt_at(tok.as_str(), client_ip, now) {
                    Result::Err(te) => Result::Err(AuthDenial::Token(te).to_app_error()),
                    Result::Ok(d) => {
                        let qp_pw = match &d.query_params {
                            Option::Some(ps) => find_param(ps, "api_password"),
                            Option::None => Option::None,
                        };
                        let pw_ok = match &qp_pw {
                            Option::Some(pw) => str_eq(pw.as_str(), self.api_password.as_str()),
                            Option::None => false,
                        };
                        if pw_ok {
                            Result::Ok(Option::Some(d))
                        } else {
                            Result::Err(AuthDenial::Unauthorized.to_app_error())
                        }
                    },
                }
            },
            Option::None => {
                match find_param(&params, "api_password") {
                    Option::Some(pw) => {
                        if str_eq(pw.as_str(), self.api_password.as_str()) {
                            match find_param(&params, "d") {
                                Option::Some(dest) => {
                                    let request_headers = strip_prefixed_pairs(&params, 'h', '_');
                                    let response_headers = strip_prefixed_pairs(&params, 'r', '_');
                                    let data = ProxyData {
                                        destination: dest,
                                        query_params: Option::Some(params),
                                        request_headers: Option::Some(request_headers),
                                        response_headers: Option::Some(response_headers),
                                        exp: Option::None,
                                        ip: Option::None,
                                    };
                                    Result::Ok(Option::Some(data))
                                },
                                Option::None => Result::Err(
                                    AuthDenial::MissingDestination.to_app_error(),
                                ),
                            }
                        } else {
                            Result::Err(AuthDenial::Unauthorized.to_app_error())
                        }
                    },
                    Option::None => Result::Err(AuthDenial::Unauthorized.to_app_error()),
                }
            },
        }
    }

    /// Decides a request at the present moment: the decision of
    /// [`spec_authorize`] for the time the clock returned.
    pub fn authorize_now(&self, path: &str, query: &str, client_ip: Option<&str>) -> (r: Result<
        Option<ProxyData>,
        AppError,
    >)
        requires
            self.wf(),
        ensures
            exists|now: u64|
                #[trigger] authorize_result_matches(
                    r,
                    self.spec_password(),
                    path@,
                    query@,
                    view_opt_str(client_ip),
                    now,
                ),
    {
        let now = crate::clock::now_unix_secs();
        let r = self.authorize(path, query, client_ip, now);
        proof {
            assert(authorize_result_matches(
                r,
                self.spec_password(),
                path@,
                query@,
                view_opt_str(client_ip),
                now,
            ));
        }
        r
    }
}

/// Whether an authorization outcome agrees with [`spec_authorize`] at a given time.
pub open spec fn authorize_result_matches(
    r: Result<Option<ProxyData>, AppError>,
    password: Seq<char>,
    path: Seq<char>,
    query: Seq<char>,
    client_ip: Option<Seq<char>>,
    now: u64,
) -> bool {
    match r {
        Result::Ok(Option::None) => spec_authorize(password, path, query, client_ip, now)
            == Result::Ok::<Option<ProxyDataView>, AuthDenial>(Option::None),
        Result::Ok(Option::Some(d)) => spec_authorize(password, path, query, client_ip, now)
            == Result::Ok::<Option<ProxyDataView>, AuthDenial>(Option::Some(d@)),
        Result::Err(e) => spec_authorize(password, path, query, client_ip, now) matches Result::Err(
            dn,
        ) && dn.matches_app_error(e),
    }
}

} // verus!
