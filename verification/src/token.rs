//! The token handler: the envelope codec under the name its first users
//! knew it by. It shares the wire format of [`crate::encryption`] exactly.

use vstd::prelude::*;

use crate::encryption::{
    decrypt_result_matches, spec_derive_key, spec_payload_of, spec_token_payload,
    spec_token_wire, EncryptionHandler, ProxyData,
};
use crate::json::spec_payload_json;
use crate::error::AppError;

pub use crate::encryption::ProxyData as TokenData;

verus! {

/// The envelope codec keyed by a shared secret.
#[derive(Clone)]
pub struct TokenHandler {
    inner: EncryptionHandler,
}

impl TokenHandler {
    pub closed spec fn spec_key(&self) -> Seq<u8> {
        self.inner.spec_key()
    }

    pub open spec fn wf(&self) -> bool {
        self.spec_key().len() == 32
    }

    /// Builds a handler from the shared secret.
    pub fn new(secret_key: &[u8]) -> (r: Result<Self, AppError>)
        ensures
            r matches Result::Ok(h) && h.wf() && h.spec_key() == spec_derive_key(secret_key@),
    {
        match EncryptionHandler::new(secret_key) {
            Result::Ok(inner) => Result::Ok(TokenHandler { inner }),
            Result::Err(e) => Result::Err(e),
        }
    }

    /// Encrypts a descriptor into a token; see
    /// [`EncryptionHandler::encrypt`].
    pub fn encrypt(&self, data: &TokenData) -> (r: Result<String, AppError>)
        requires
            self.wf(),
        ensures
            r matches Result::Ok(token) ==> spec_token_payload(token@, self.spec_key())
                == Option::Some(spec_payload_of(data@)),
            r matches Result::Ok(token) ==> exists|iv: Seq<u8>|
                #[trigger] spec_token_wire(token@, iv, self.spec_key(), spec_payload_of(data@)),
            spec_payload_json(spec_payload_of(data@)).len() + 16 <= usize::MAX ==> r is Ok,
    {
        self.inner.encrypt(data)
    }

    /// Decrypts and validates a token; see [`EncryptionHandler::decrypt`].
    pub fn decrypt(&self, token: &str, client_ip: Option<&str>) -> (r: Result<
        ProxyData,
        AppError,
    >)
        requires
            self.wf(),
        ensures
            exists|now: u64|
                #[trigger] decrypt_result_matches(
                    r,
                    token@,
                    self.spec_key(),
                    crate::encryption::view_opt_str(client_ip),
                    now,
                ),
    {
        self.inner.decrypt(token, client_ip)
    }
}

} // verus!
