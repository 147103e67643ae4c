//! The login builder: collects connection options, validates them, applies
//! profile overrides, and produces a fully described login request.  The
//! HTTP transport that carries the request out lives outside this crate;
//! [`interpret_login_response`] turns what comes back into a
//! [`LoginResponse`] or an error.

use vstd::prelude::*;
use vstd::string::*;
use crate::creds::Creds;
use crate::error::LogInError;
use crate::ip::is_valid_ip_literal;
use crate::login_response::LoginResponse;
use crate::profile::{Profile, pair_views, uses_session_auth};
use crate::text::{replace_api_version, replace_api_version_str, replace_port, replace_port_str};
use crate::{check_header_value, is_valid_header_value};

verus! {

/// How the login request authenticates: HTTP Basic for the session-style
/// variant, a form-encoded credential body for the bearer-style ones.
#[derive(Debug)]
pub enum LoginAuth {
    Basic { username: String, password: String },
    Form { body: String },
}

/// One login request, fully described: everything the HTTP transport
/// needs, and nothing it has to decide.
#[derive(Debug)]
pub struct LoginRequest {
    /// The URL to POST to.
    pub url: String,
    /// Basic authentication or a form body.
    pub auth: LoginAuth,
    /// Header names and values to send.
    pub headers: Vec<(String, String)>,
    /// Request timeout, in seconds.
    pub timeout_secs: u64,
    /// Whether to accept an invalid TLS certificate.
    pub insecure: bool,
}

/// Collects the options of one login attempt.
#[derive(Debug)]
pub struct VServerBuilder {
    pub address: String,
    pub username: String,
    pub insecure: Option<bool>,
    pub timeout: Option<u64>,
    pub api_version: Option<String>,
    pub x_api_version: Option<String>,
    pub port: Option<String>,
}

/// What the result of [`serde_urlencoded::to_string`] spells for a given
/// sequence of key/value pairs.
pub uninterp spec fn form_urlencoded_of(pairs: Seq<(Seq<char>, Seq<char>)>) -> Seq<char>;

/// Relies on `serde_urlencoded::to_string`: on pairs of strings it always
/// returns `Ok`, and its output depends on the pairs alone.
#[verifier::external_body]
fn urlencode_creds(c: &Creds<'_>) -> (r: String)
    ensures
        r@ == form_urlencoded_of(
            seq![
                ("grant_type"@, c.grant_type@),
                ("username"@, c.username@),
                ("password"@, c.password@),
            ],
        ),
{
    serde_urlencoded::to_string(
        [("grant_type", c.grant_type), ("username", c.username), ("password", c.password)],
    ).unwrap_or_default()
}

/// The timeout in force: the override, or thirty seconds.
pub open spec fn effective_timeout(b: VServerBuilder) -> u64 {
    match b.timeout {
        Some(t) => t,
        None => 30,
    }
}

/// Whether invalid TLS certificates are accepted: the override, or no.
pub open spec fn effective_insecure(b: VServerBuilder) -> bool {
    match b.insecure {
        Some(v) => v,
        None => false,
    }
}

/// The X-Api-Version value in force: the override, or the profile's own.
pub open spec fn effective_x_api_version(b: VServerBuilder, p: Profile) -> Option<String> {
    if b.x_api_version is Some {
        b.x_api_version
    } else {
        p.x_api_version
    }
}

/// The authentication URL suffix after the overrides: the API version
/// override replaces the first `v`-plus-digit marker, then the port
/// override replaces the first run of two or more digits.
pub open spec fn overridden_url(b: VServerBuilder, u: Seq<char>) -> Seq<char> {
    let u1 = match b.api_version {
        Some(v) => replace_api_version(u, v@),
        None => u,
    };
    match b.port {
        Some(p) => replace_port(u1, p@),
        None => u1,
    }
}

/// The password argument holds a non-empty password.
pub open spec fn password_ok(pw: Option<&String>) -> bool {
    pw matches Some(p) && p@.len() > 0
}

/// For a bearer-style login, the X-Api-Version value in force must be a
/// legal header value; the session-style login sends none.
pub open spec fn login_headers_ok(b: VServerBuilder, p: Profile) -> bool {
    uses_session_auth(p.profile_type) || (match effective_x_api_version(b, p) {
        Some(x) => is_valid_header_value(x@),
        None => true,
    })
}

/// The first violated login precondition, in validation order, or `None`
/// when the login request can be built.
pub open spec fn validation_error(b: VServerBuilder, pw: Option<&String>, p: Profile) -> Option<
    LogInError,
> {
    if b.username@.len() == 0 {
        Some(LogInError::EmptyUsername)
    } else if !password_ok(pw) {
        Some(LogInError::MissingCredential)
    } else if b.address@.len() == 0 {
        Some(LogInError::EmptyAddress)
    } else if !is_valid_ip_literal(b.address@) {
        Some(LogInError::InvalidAddress)
    } else if !login_headers_ok(b, p) {
        Some(LogInError::InvalidHeaderValue)
    } else {
        None
    }
}

/// How the profile looks after the overrides are applied.
pub open spec fn profile_after(b: VServerBuilder, before: Profile, after: Profile) -> bool {
    &&& after.profile_type == before.profile_type
    &&& after.name == before.name
    &&& after.url@ == overridden_url(b, before.url@)
    &&& after.api_version@ == match b.api_version {
        Some(v) => v@,
        None => before.api_version@,
    }
    &&& after.port@ == match b.port {
        Some(v) => v@,
        None => before.port@,
    }
    &&& match b.x_api_version {
        Some(v) => after.x_api_version matches Some(x) && x@ == v@,
        None => after.x_api_version == before.x_api_version,
    }
}

/// The headers of a bearer-style login request.
pub open spec fn bearer_login_headers(x_api_version: Option<String>) -> Seq<
    (Seq<char>, Seq<char>),
> {
    seq![("Accept"@, "application/json"@)] + (match x_api_version {
        Some(x) => seq![("X-Api-Version"@, x@)],
        None => Seq::empty(),
    }) + seq![("Content-Type"@, "application/x-www-form-urlencoded"@)]
}

/// What the built login request spells, with `p` the profile after the
/// overrides and `pw` the password.
pub open spec fn prepared_request(
    b: VServerBuilder,
    pw: Seq<char>,
    p: Profile,
    req: LoginRequest,
) -> bool {
    &&& req.url@ == "https://"@ + b.address@ + p.url@
    &&& req.timeout_secs == effective_timeout(b)
    &&& req.insecure == effective_insecure(b)
    &&& if uses_session_auth(p.profile_type) {
        &&& (req.auth matches LoginAuth::Basic { username, password } && username@ == b.username@
            && password@ == pw)
        &&& pair_views(req.headers@) == seq![
            ("Accept"@, "application/json"@),
            ("Content-Length"@, "0"@),
        ]
    } else {
        &&& (req.auth matches LoginAuth::Form { body } && body@ == form_urlencoded_of(
            seq![("grant_type"@, "password"@), ("username"@, b.username@), ("password"@, pw)],
        ))
        &&& pair_views(req.headers@) == bearer_login_headers(p.x_api_version)
    }
}

/// Turns what the login endpoint answered into a [`LoginResponse`] or an
/// error: a status outside 200..=299 is a status-code error; the
/// session-style variant takes the session id from its response header
/// and synthesizes a response with a fixed 900-second expiry; the others
/// read the body as JSON.  `session_id` carries the session header's
/// value, `None` when it is absent or unreadable.
pub fn interpret_login_response(
    profile: &Profile,
    status: u16,
    session_id: Option<&String>,
    body: &str,
) -> (r: Result<LoginResponse, LogInError>)
    ensures
        !(200 <= status < 300) ==> r == Err::<LoginResponse, _>(
            LogInError::StatusCodeError(status),
        ),
        200 <= status < 300 && uses_session_auth(profile.profile_type) ==> match session_id {
            None => r == Err::<LoginResponse, _>(LogInError::MissingSessionHeader),
            Some(t) => r matches Ok(lr) && lr.access_token@ == t@ && lr.refresh_token@ == t@
                && lr.token_type@ == ""@ && lr.expires_in == 900,
        },
        200 <= status < 300 && !uses_session_auth(profile.profile_type) ==> match crate::json::spec_parse_login_response(
            body@,
        ) {
            Some(m) => r matches Ok(lr) && lr@ == m,
            None => r == Err::<LoginResponse, _>(LogInError::MalformedLoginBody),
        },
{
    if !(200 <= status && status < 300) {
        return Err(LogInError::StatusCodeError(status));
    }
    if profile.profile_type == crate::profile::ProfileType::ENTMAN {
        match session_id {
            None => Err(LogInError::MissingSessionHeader),
            Some(t) => Ok(
                LoginResponse {
                    access_token: t.clone(),
                    token_type: String::from_str(""),
                    refresh_token: t.clone(),
                    expires_in: 900,
                },
            ),
        }
    } else {
        LoginResponse::from_json(body)
    }
}

impl VServerBuilder {
    /// Starts collecting options for a login against `address` as
    /// `username`.
    pub fn new(address: &String, username: String) -> (r: Self)
        ensures
            r.address@ == address@,
            r.username == username,
            r.insecure is None,
            r.timeout is None,
            r.api_version is None,
            r.x_api_version is None,
            r.port is None,
    {
        VServerBuilder {
            address: address.clone(),
            username,
            insecure: None,
            timeout: None,
            api_version: None,
            x_api_version: None,
            port: None,
        }
    }

    /// Accept invalid TLS certificates.
    pub fn insecure(self) -> (r: Self)
        ensures
            r.insecure == Some(true),
            r.address == self.address,
            r.username == self.username,
            r.timeout == self.timeout,
            r.api_version == self.api_version,
            r.x_api_version == self.x_api_version,
            r.port == self.port,
    {
        VServerBuilder { insecure: Some(true), ..self }
    }

    /// Overrides the request timeout; thirty seconds otherwise.
    pub fn timeout(self, value: u64) -> (r: Self)
        ensures
            r.timeout == Some(value),
            r.address == self.address,
            r.username == self.username,
            r.insecure == self.insecure,
            r.api_version == self.api_version,
            r.x_api_version == self.x_api_version,
            r.port == self.port,
    {
        VServerBuilder { timeout: Some(value), ..self }
    }

    /// Overrides the profile's API version, such as `v1`.
    pub fn api_version(self, value: String) -> (r: Self)
        ensures
            r.api_version == Some(value),
            r.address == self.address,
            r.username == self.username,
            r.insecure == self.insecure,
            r.timeout == self.timeout,
            r.x_api_version == self.x_api_version,
            r.port == self.port,
    {
        VServerBuilder { api_version: Some(value), ..self }
    }

    /// Overrides the profile's X-Api-Version header value.
    pub fn x_api_version(self, value: String) -> (r: Self)
        ensures
            r.x_api_version == Some(value),
            r.address == self.address,
            r.username == self.username,
            r.insecure == self.insecure,
            r.timeout == self.timeout,
            r.api_version == self.api_version,
            r.port == self.port,
    {
        VServerBuilder { x_api_version: Some(value), ..self }
    }

    /// Overrides the profile's port.
    pub fn port(self, value: String) -> (r: Self)
        ensures
            r.port == Some(value),
            r.address == self.address,
            r.username == self.username,
            r.insecure == self.insecure,
            r.timeout == self.timeout,
            r.api_version == self.api_version,
            r.x_api_version == self.x_api_version,
    {
        VServerBuilder { port: Some(value), ..self }
    }

    /// Validates the collected options, applies the overrides to
    /// `profile`, and describes the login request to send: fail fast, in
    /// the order username, password, address, header values; on failure
    /// the profile is left untouched.
    pub fn login_request(&self, profile: &mut Profile, password: Option<&String>) -> (r: Result<
        LoginRequest,
        LogInError,
    >)
        ensures
            validation_error(*self, password, *old(profile)) matches Some(e) ==> r == Err::<
                LoginRequest,
                _,
            >(e) && *final(profile) == *old(profile),
            validation_error(*self, password, *old(profile)) is None ==> profile_after(
                *self,
                *old(profile),
                *final(profile),
            ) && (r matches Ok(req) && password matches Some(p) && prepared_request(
                *self,
                p@,
                *final(profile),
                req,
            )),
    {
        if self.username.as_str().is_empty() {
            return Err(LogInError::EmptyUsername);
        }
        let pw = match password {
            Some(p) => {
                if p.as_str().is_empty() {
                    return Err(LogInError::MissingCredential);
                }
                p
            },
            None => {
                return Err(LogInError::MissingCredential);
            },
        };
        if self.address.as_str().is_empty() {
            return Err(LogInError::EmptyAddress);
        }
        if !crate::ip::check_valid_ip(self.address.as_str()) {
            return Err(LogInError::InvalidAddress);
        }
        let session = profile.profile_type == crate::profile::ProfileType::ENTMAN;
        if !session {
            let x_eff: Option<&String> = match &self.x_api_version {
                Some(x) => Some(x),
                None => match &profile.x_api_version {
                    Some(x) => Some(x),
                    None => None,
                },
            };
            if let Some(x) = x_eff {
                if !check_header_value(x.as_str()) {
                    return Err(LogInError::InvalidHeaderValue);
                }
            }
        }
        // apply the overrides, by explicit assignment
        if let Some(v) = &self.api_version {
            let replaced = replace_api_version_str(profile.url.as_str(), v.as_str());
            profile.url = replaced;
            profile.api_version = v.clone();
        }
        if let Some(x) = &self.x_api_version {
            profile.x_api_version = Some(x.clone());
        }
        if let Some(p) = &self.port {
            let replaced = replace_port_str(profile.url.as_str(), p.as_str());
            profile.url = replaced;
            profile.port = p.clone();
        }
        let mut url = String::from_str("https://");
        url.append(self.address.as_str());
        url.append(profile.url.as_str());
        let timeout_secs = match self.timeout {
            Some(t) => t,
            None => 30,
        };
        let insecure = match self.insecure {
            Some(v) => v,
            None => false,
        };
        let mut headers: Vec<(String, String)> = Vec::new();
        headers.push((String::from_str("Accept"), String::from_str("application/json")));
        if session {
            headers.push((String::from_str("Content-Length"), String::from_str("0")));
            proof {
                assert(pair_views(headers@) =~= seq![
                    ("Accept"@, "application/json"@),
                    ("Content-Length"@, "0"@),
                ]);
            }
            Ok(
                LoginRequest {
                    url,
                    auth: LoginAuth::Basic {
                        username: self.username.clone(),
                        password: pw.clone(),
                    },
                    headers,
                    timeout_secs,
                    insecure,
                },
            )
        } else {
            match &profile.x_api_version {
                Some(x) => {
                    headers.push((String::from_str("X-Api-Version"), x.clone()));
                },
                None => {},
            }
            headers.push(
                (
                    String::from_str("Content-Type"),
                    String::from_str("application/x-www-form-urlencoded"),
                ),
            );
            proof {
                assert(pair_views(headers@) =~= bearer_login_headers(profile.x_api_version));
            }
            let creds = Creds::new(self.username.as_str(), pw.as_str());
            let body = urlencode_creds(&creds);
            Ok(
                LoginRequest {
                    url,
                    auth: LoginAuth::Form { body },
                    headers,
                    timeout_secs,
                    insecure,
                },
            )
        }
    }
}

} // verus!
