//! Free-standing counterparts of the profile methods, for callers that
//! prefer plain functions.

use vstd::prelude::*;
use crate::error::LogInError;
use crate::ip::is_valid_ip_literal;
use crate::profile::{Profile, auth_headers_of, auth_headers_ok, pair_views, url_of};

verus! {

/// The request URL for `end_point` under `profile`; see
/// [`Profile::build_url`].
pub fn build_url(address: &String, end_point: &String, profile: &Profile) -> (r: Result<
    String,
    LogInError,
>)
    ensures
        !is_valid_ip_literal(address@) ==> r == Err::<String, _>(LogInError::InvalidAddress),
        is_valid_ip_literal(address@) && profile.profile_type is UNKNOWN ==> r == Err::<
            String,
            _,
        >(LogInError::UnresolvedProfile),
        is_valid_ip_literal(address@) && !(profile.profile_type is UNKNOWN) ==> (r matches Ok(u)
            && u@ == url_of(
            profile.profile_type,
            address@,
            profile.port@,
            profile.api_version@,
            end_point@,
        )),
{
    profile.build_url(address, end_point)
}

/// The authentication headers for requests made with `token` under
/// `profile`; see [`Profile::build_auth_headers`].
pub fn build_auth_headers(token: &String, profile: &Profile) -> (r: Result<
    Vec<(String, String)>,
    LogInError,
>)
    ensures
        r matches Ok(hs) ==> auth_headers_ok(profile.profile_type, profile.x_api_version, token@)
            && pair_views(hs@) == auth_headers_of(
            profile.profile_type,
            profile.x_api_version,
            token@,
        ),
        r is Err ==> !auth_headers_ok(profile.profile_type, profile.x_api_version, token@) && r
            == Err::<Vec<(String, String)>, _>(LogInError::InvalidHeaderValue),
{
    profile.build_auth_headers(token)
}

} // verus!
