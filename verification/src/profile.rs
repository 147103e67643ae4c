//! Profiles: the connection parameters of one backend variant, and the
//! URL and authentication-header rules that consume them.

use vstd::prelude::*;
use vstd::string::*;
use crate::error::LogInError;
use crate::ip::is_valid_ip_literal;
use crate::login_response::LoginResponse;
use crate::text::trim_spec;
use crate::text::trim_of;
use crate::vprofile::VProfile;
use crate::{is_valid_header_value, check_header_value};

verus! {

/// The known backend variants, plus a marker for hand-made profiles whose
/// variant is not known.
#[derive(Debug, Clone, Copy, PartialEq, Eq, Structural)]
pub enum ProfileType {
    VBAZURE,
    VBR,
    VBAWS,
    VBGCP,
    VONE,
    VB365,
    ENTMAN,
    UNKNOWN,
}

/// True for the variant that authenticates with a server-issued session id
/// in a custom header rather than with a bearer token.  Both the URL rule
/// and the header rule dispatch on this one predicate, so the two can
/// never disagree about which variant is session-style.
pub open spec fn uses_session_auth(pt: ProfileType) -> bool {
    pt is ENTMAN
}

/// The connection parameters of one backend variant: its name, the
/// authentication URL suffix, the port, the API version used in request
/// paths, and the optional X-Api-Version header value.
#[derive(Debug, Clone)]
pub struct Profile {
    pub profile_type: ProfileType,
    pub name: String,
    pub url: String,
    pub port: String,
    pub api_version: String,
    pub x_api_version: Option<String>,
}

/// The request URL for `end_point` under a resolved profile variant.
pub open spec fn url_of(
    pt: ProfileType,
    address: Seq<char>,
    port: Seq<char>,
    api_version: Seq<char>,
    end_point: Seq<char>,
) -> Seq<char> {
    match pt {
        ProfileType::VBAZURE => "https://"@ + address + "/api/"@ + api_version + "/"@ + end_point,
        ProfileType::VBR | ProfileType::VBAWS | ProfileType::VBGCP | ProfileType::VONE => "https://"@
            + address + ":"@ + port + "/api/"@ + api_version + "/"@ + end_point,
        ProfileType::VB365 => "https://"@ + address + ":"@ + port + "/"@ + api_version + "/"@
            + end_point,
        ProfileType::ENTMAN => "https://"@ + address + ":"@ + port + "/api/"@ + end_point,
        ProfileType::UNKNOWN => Seq::empty(),
    }
}

/// The views of a sequence of name/value pairs.
pub open spec fn pair_views(v: Seq<(String, String)>) -> Seq<(Seq<char>, Seq<char>)> {
    v.map_values(|p: (String, String)| (p.0@, p.1@))
}

/// The authentication headers for a profile and a token: JSON content
/// negotiation, then either the raw session id or a trimmed bearer token
/// with the optional X-Api-Version header.
pub open spec fn auth_headers_of(
    pt: ProfileType,
    x_api_version: Option<String>,
    token: Seq<char>,
) -> Seq<(Seq<char>, Seq<char>)> {
    let base = seq![
        ("Accept"@, "application/json"@),
        ("Content-Type"@, "application/json"@),
    ];
    if uses_session_auth(pt) {
        base + seq![("X-RestSvcSessionId"@, token)]
    } else {
        let with_auth = base + seq![("Authorization"@, "Bearer "@ + trim_spec(token))];
        match x_api_version {
            Some(x) => with_auth + seq![("X-Api-Version"@, x@)],
            None => with_auth,
        }
    }
}

/// When header building succeeds: every header value must be legal.
pub open spec fn auth_headers_ok(
    pt: ProfileType,
    x_api_version: Option<String>,
    token: Seq<char>,
) -> bool {
    if uses_session_auth(pt) {
        is_valid_header_value(token)
    } else {
        &&& is_valid_header_value("Bearer "@ + trim_spec(token))
        &&& (x_api_version matches Some(x) ==> is_valid_header_value(x@))
    }
}

impl Profile {
    /// Creates a hand-made profile; its variant is unknown, so URL
    /// construction on it fails rather than guessing a shape.
    pub fn new(
        name: String,
        url: String,
        port: String,
        api_version: String,
        x_api_version: Option<String>,
    ) -> (r: Self)
        ensures
            r.profile_type is UNKNOWN,
            r.name == name,
            r.url == url,
            r.port == port,
            r.api_version == api_version,
            r.x_api_version == x_api_version,
    {
        Profile { profile_type: ProfileType::UNKNOWN, name, url, port, api_version, x_api_version }
    }

    /// The request URL for `end_point`: `https://`, the address, then the
    /// port and path segments that the profile variant calls for.  The
    /// address must be an IP literal, and the variant must be known.
    pub fn build_url(&self, address: &String, end_point: &String) -> (r: Result<
        String,
        LogInError,
    >)
        ensures
            !is_valid_ip_literal(address@) ==> r == Err::<String, _>(LogInError::InvalidAddress),
            is_valid_ip_literal(address@) && self.profile_type is UNKNOWN ==> r == Err::<
                String,
                _,
            >(LogInError::UnresolvedProfile),
            is_valid_ip_literal(address@) && !(self.profile_type is UNKNOWN) ==> (r matches Ok(u)
                && u@ == url_of(
                self.profile_type,
                address@,
                self.port@,
                self.api_version@,
                end_point@,
            )),
    {
        if !crate::ip::check_valid_ip(address.as_str()) {
            return Err(LogInError::InvalidAddress);
        }
        match self.profile_type {
            ProfileType::VBAZURE => {
                let mut u = String::from_str("https://");
                u.append(address.as_str());
                u.append("/api/");
                u.append(self.api_version.as_str());
                u.append("/");
                u.append(end_point.as_str());
                Ok(u)
            },
            ProfileType::VBR | ProfileType::VBAWS | ProfileType::VBGCP | ProfileType::VONE => {
                let mut u = String::from_str("https://");
                u.append(address.as_str());
                u.append(":");
                u.append(self.port.as_str());
                u.append("/api/");
                u.append(self.api_version.as_str());
                u.append("/");
                u.append(end_point.as_str());
                Ok(u)
            },
            ProfileType::VB365 => {
                let mut u = String::from_str("https://");
                u.append(address.as_str());
                u.append(":");
                u.append(self.port.as_str());
                u.append("/");
                u.append(self.api_version.as_str());
                u.append("/");
                u.append(end_point.as_str());
                Ok(u)
            },
            ProfileType::ENTMAN => {
                let mut u = String::from_str("https://");
                u.append(address.as_str());
                u.append(":");
                u.append(self.port.as_str());
                u.append("/api/");
                u.append(end_point.as_str());
                Ok(u)
            },
            ProfileType::UNKNOWN => Err(LogInError::UnresolvedProfile),
        }
    }

    /// The connection parameters of a known variant.
    pub fn get_profile(v_profile: VProfile) -> (r: Self)
        ensures
            crate::vprofile::is_profile_data_of(v_profile, r),
    {
        v_profile.profile_data()
    }

    /// The authentication headers for requests made with `token`; see
    /// [`auth_headers_of`].  Fails when the token, or the profile's
    /// X-Api-Version value, cannot stand in an HTTP header.
    pub fn build_auth_headers(&self, token: &String) -> (r: Result<
        Vec<(String, String)>,
        LogInError,
    >)
        ensures
            r matches Ok(hs) ==> auth_headers_ok(self.profile_type, self.x_api_version, token@)
                && pair_views(hs@) == auth_headers_of(
                self.profile_type,
                self.x_api_version,
                token@,
            ),
            r is Err ==> !auth_headers_ok(self.profile_type, self.x_api_version, token@) && r
                == Err::<Vec<(String, String)>, _>(LogInError::InvalidHeaderValue),
    {
        build_auth_headers_with(self.profile_type, &self.x_api_version, token)
    }

    /// The authentication headers reconstructed from a persisted login
    /// response, bypassing a fresh login.
    pub fn build_auth_headers_from_response(&self, login_response: &LoginResponse) -> (r: Result<
        Vec<(String, String)>,
        LogInError,
    >)
        ensures
            r matches Ok(hs) ==> auth_headers_ok(
                self.profile_type,
                self.x_api_version,
                login_response.access_token@,
            ) && pair_views(hs@) == auth_headers_of(
                self.profile_type,
                self.x_api_version,
                login_response.access_token@,
            ),
            r is Err ==> !auth_headers_ok(
                self.profile_type,
                self.x_api_version,
                login_response.access_token@,
            ) && r == Err::<Vec<(String, String)>, _>(LogInError::InvalidHeaderValue),
    {
        build_auth_headers_with(self.profile_type, &self.x_api_version, &login_response.access_token)
    }
}

// Shared body of the two header builders.
pub(crate) fn build_auth_headers_with(
    pt: ProfileType,
    x_api_version: &Option<String>,
    token: &String,
) -> (r: Result<Vec<(String, String)>, LogInError>)
    ensures
        r matches Ok(hs) ==> auth_headers_ok(pt, *x_api_version, token@) && pair_views(hs@)
            == auth_headers_of(pt, *x_api_version, token@),
        r is Err ==> !auth_headers_ok(pt, *x_api_version, token@) && r == Err::<
            Vec<(String, String)>,
            _,
        >(LogInError::InvalidHeaderValue),
{
    let mut hs: Vec<(String, String)> = Vec::new();
    hs.push((String::from_str("Accept"), String::from_str("application/json")));
    hs.push((String::from_str("Content-Type"), String::from_str("application/json")));
    match pt {
        ProfileType::ENTMAN => {
            if !check_header_value(token.as_str()) {
                return Err(LogInError::InvalidHeaderValue);
            }
            hs.push((String::from_str("X-RestSvcSessionId"), token.clone()));
            proof {
                assert(pair_views(hs@) =~= auth_headers_of(pt, *x_api_version, token@));
            }
            Ok(hs)
        },
        _ => {
            let mut bearer = String::from_str("Bearer ");
            let trimmed = trim_of(token.as_str());
            bearer.append(trimmed.as_str());
            if !check_header_value(bearer.as_str()) {
                return Err(LogInError::InvalidHeaderValue);
            }
            hs.push((String::from_str("Authorization"), bearer));
            match x_api_version {
                Some(x) => {
                    if !check_header_value(x.as_str()) {
                        return Err(LogInError::InvalidHeaderValue);
                    }
                    hs.push((String::from_str("X-Api-Version"), x.clone()));
                    proof {
                        assert(pair_views(hs@) =~= auth_headers_of(pt, *x_api_version, token@));
                    }
                    Ok(hs)
                },
                None => {
                    proof {
                        assert(pair_views(hs@) =~= auth_headers_of(pt, *x_api_version, token@));
                    }
                    Ok(hs)
                },
            }
        },
    }
}

} // verus!
