//! What a login with the server yields, and how its calls fail.
use vstd::prelude::*;

use crate::cipher::CipherSuite;
use crate::primitives::push_char;

verus! {

/// How a call to the server failed.
pub enum ApiError {
    /// The server could not be reached for the named resource.
    NetworkError(String),
    /// Wrong email or master password.
    LoginFailed,
    /// The vault could not be synchronised, for the reason given.
    SyncFailed(String),
}

/// The session a login yields: the bearer token, the key-derivation
/// parameters, and the credentials derived from the master password.
pub struct AuthData {
    pub access_token: String,
    pub expires_in: usize,
    pub token_type: String,
    pub kdf: u32,
    pub kdf_iterations: u32,
    pub cipher: CipherSuite,
}

impl AuthData {
    /// The value of the authorization header: the token type, a space, and
    /// the access token.
    pub fn authorization(&self) -> (r: String)
        ensures
            r@ == self.token_type@ + seq![' '] + self.access_token@,
    {
        let mut header = self.token_type.clone();
        push_char(&mut header, ' ');
        header.append(self.access_token.as_str());
        header
    }
}

} // verus!
