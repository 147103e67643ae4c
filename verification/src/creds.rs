//! The credential triple sent in a password-grant login body.

use vstd::prelude::*;

verus! {

/// Password-grant credentials: the fixed grant type, a username and a
/// password.  Transient: built for one login request and never stored.
#[derive(Debug, Clone, Copy)]
pub struct Creds<'a> {
    pub grant_type: &'static str,
    pub username: &'a str,
    pub password: &'a str,
}

impl<'a> Creds<'a> {
    /// Credentials for the password grant.
    pub fn new(username: &'a str, password: &'a str) -> (r: Self)
        ensures
            r.grant_type@ == "password"@,
            r.username@ == username@,
            r.password@ == password@,
    {
        Creds { grant_type: "password", username, password }
    }
}

impl<'a> Default for Creds<'a> {
    /// Empty credentials for the password grant.
    fn default() -> (r: Self)
        ensures
            r.grant_type@ == "password"@,
            r.username@ == ""@,
            r.password@ == ""@,
    {
        Creds { grant_type: "password", username: "", password: "" }
    }
}

} // verus!
