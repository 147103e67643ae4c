//! The record returned by a successful login.

use vstd::prelude::*;

verus! {

/// A successful login's token material: access and refresh tokens, the
/// token's type, and its lifetime in seconds.  For session-style logins
/// both tokens hold the session id, the type is empty and the lifetime is
/// a fixed fallback.
#[derive(Debug, Clone)]
pub struct LoginResponse {
    pub access_token: String,
    pub token_type: String,
    pub refresh_token: String,
    pub expires_in: i32,
}

/// The mathematical value of a [`LoginResponse`].
pub struct LoginResponseView {
    pub access_token: Seq<char>,
    pub token_type: Seq<char>,
    pub refresh_token: Seq<char>,
    pub expires_in: int,
}

impl View for LoginResponse {
    type V = LoginResponseView;

    open spec fn view(&self) -> LoginResponseView {
        LoginResponseView {
            access_token: self.access_token@,
            token_type: self.token_type@,
            refresh_token: self.refresh_token@,
            expires_in: self.expires_in as int,
        }
    }
}

impl PartialEq for LoginResponse {
    fn eq(&self, other: &Self) -> (r: bool) {
        self.access_token == other.access_token && self.token_type == other.token_type
            && self.refresh_token == other.refresh_token && self.expires_in == other.expires_in
    }
}

impl vstd::std_specs::cmp::PartialEqSpecImpl for LoginResponse {
    open spec fn obeys_eq_spec() -> bool {
        true
    }

    open spec fn eq_spec(&self, other: &Self) -> bool {
        self.access_token@ == other.access_token@ && self.token_type@ == other.token_type@
            && self.refresh_token@ == other.refresh_token@ && self.expires_in == other.expires_in
    }
}

} // verus!
