//! Authentication helper for a family of backup-product REST APIs that share
//! an OAuth2-or-Basic login flow but differ in port, URL path, and
//! API-version header conventions.

use vstd::prelude::*;

pub mod creds;
pub mod error;
pub mod helpers;
pub mod ip;
pub mod json;
pub mod login_response;
pub mod profile;
pub mod text;
pub mod vprofile;
pub mod vserver_builder;

pub use creds::Creds;
pub use error::LogInError;
pub use helpers::{build_auth_headers, build_url};
pub use ip::check_valid_ip;
pub use login_response::LoginResponse;
pub use profile::{Profile, ProfileType};
pub use vprofile::VProfile;
pub use vserver_builder::{LoginAuth, LoginRequest, VServerBuilder};

verus! {

/// True for characters that may appear in an HTTP header value:
/// horizontal tab or anything that is not an ASCII control character.
pub open spec fn is_header_value_char(c: char) -> bool {
    c == '\t' || (c as u32 >= 32 && c as u32 != 127)
}

/// True when every character of `s` is legal in an HTTP header value.
pub open spec fn is_valid_header_value(s: Seq<char>) -> bool {
    forall|i: int| 0 <= i < s.len() ==> is_header_value_char(#[trigger] s[i])
}

/// Checks that every character of `s` is legal in an HTTP header value.
pub fn check_header_value(s: &str) -> (r: bool)
    ensures
        r == is_valid_header_value(s@),
{
    let len = s.unicode_len();
    let mut i: usize = 0;
    while i < len
        invariant
            len == s@.len(),
            0 <= i <= len,
            forall|j: int| 0 <= j < i ==> is_header_value_char(#[trigger] s@[j]),
        decreases len - i,
    {
        let c = s.get_char(i);
        if !(c == '\t' || (c as u32 >= 32 && c as u32 != 127)) {
            return false;
        }
        i = i + 1;
    }
    true
}

} // verus!
