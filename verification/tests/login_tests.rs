use vauth::vserver_builder::interpret_login_response;
use vauth::{Creds, LogInError, LoginAuth, VProfile, VServerBuilder};

#[test]
fn test_login_request_missing_credential() {
    let mut profile = VProfile::VBR.profile_data();
    let b = VServerBuilder::new(&"192.168.0.123".to_string(), "admin".to_string());
    let r = b.login_request(&mut profile, None);
    assert!(matches!(r, Err(LogInError::MissingCredential)));
    let empty = String::new();
    let r = b.login_request(&mut profile, Some(&empty));
    assert!(matches!(r, Err(LogInError::MissingCredential)));
    // validation failed, so the profile was left untouched
    assert!(profile.url == ":9419/api/oauth2/token");
}

#[test]
fn test_login_request_empty_username() {
    let mut profile = VProfile::VBR.profile_data();
    let b = VServerBuilder::new(&"192.168.0.123".to_string(), String::new());
    // the username check comes first, before the password check
    let r = b.login_request(&mut profile, None);
    assert!(matches!(r, Err(LogInError::EmptyUsername)));
}

#[test]
fn test_login_request_bad_address() {
    let mut profile = VProfile::VBR.profile_data();
    let pw = "secret".to_string();
    let b = VServerBuilder::new(&String::new(), "admin".to_string());
    let r = b.login_request(&mut profile, Some(&pw));
    assert!(matches!(r, Err(LogInError::EmptyAddress)));
    let b = VServerBuilder::new(&"server.example".to_string(), "admin".to_string());
    let r = b.login_request(&mut profile, Some(&pw));
    assert!(matches!(r, Err(LogInError::InvalidAddress)));
}

#[test]
fn test_login_request_bearer() {
    let mut profile = VProfile::VBR.profile_data();
    let pw = "p@ss w".to_string();
    let b = VServerBuilder::new(&"192.168.0.123".to_string(), "a b".to_string());
    let req = b.login_request(&mut profile, Some(&pw)).unwrap();
    assert_eq!(req.url, "https://192.168.0.123:9419/api/oauth2/token");
    assert_eq!(req.timeout_secs, 30);
    assert!(!req.insecure);
    match req.auth {
        LoginAuth::Form { body } => {
            assert_eq!(body, "grant_type=password&username=a+b&password=p%40ss+w");
        }
        LoginAuth::Basic { .. } => panic!("bearer login must use a form body"),
    }
    assert_eq!(req.headers.len(), 3);
    assert_eq!(req.headers[0], ("Accept".to_string(), "application/json".to_string()));
    assert_eq!(req.headers[1], ("X-Api-Version".to_string(), "1.2-rev1".to_string()));
    assert_eq!(
        req.headers[2],
        ("Content-Type".to_string(), "application/x-www-form-urlencoded".to_string())
    );
}

#[test]
fn test_login_request_session() {
    let mut profile = VProfile::ENTMAN.profile_data();
    let pw = "secret".to_string();
    let b = VServerBuilder::new(&"10.0.0.5".to_string(), "admin".to_string());
    let req = b.login_request(&mut profile, Some(&pw)).unwrap();
    assert_eq!(req.url, "https://10.0.0.5:9398/api/sessionMngr/?v=latest");
    match req.auth {
        LoginAuth::Basic { username, password } => {
            assert_eq!(username, "admin");
            assert_eq!(password, "secret");
        }
        LoginAuth::Form { .. } => panic!("session login must use basic auth"),
    }
    assert_eq!(req.headers.len(), 2);
    assert_eq!(req.headers[0], ("Accept".to_string(), "application/json".to_string()));
    assert_eq!(req.headers[1], ("Content-Length".to_string(), "0".to_string()));
}

#[test]
fn test_login_request_overrides() {
    let mut profile = VProfile::VBAWS.profile_data();
    let pw = "pw".to_string();
    let b = VServerBuilder::new(&"10.1.2.3".to_string(), "admin".to_string())
        .api_version("v2".to_string())
        .port("9999".to_string())
        .x_api_version("9.9-rev9".to_string())
        .timeout(5)
        .insecure();
    let req = b.login_request(&mut profile, Some(&pw)).unwrap();
    assert_eq!(profile.url, ":9999/api/v2/token");
    assert_eq!(profile.api_version, "v2");
    assert_eq!(profile.port, "9999");
    assert_eq!(profile.x_api_version, Some("9.9-rev9".to_string()));
    assert_eq!(req.url, "https://10.1.2.3:9999/api/v2/token");
    assert_eq!(req.timeout_secs, 5);
    assert!(req.insecure);
    assert_eq!(req.headers[1], ("X-Api-Version".to_string(), "9.9-rev9".to_string()));
}

#[test]
fn test_login_request_port_override_only() {
    // the port override rewrites the first digit run of the URL suffix
    let mut profile = VProfile::VBR.profile_data();
    let pw = "pw".to_string();
    let b = VServerBuilder::new(&"10.1.2.3".to_string(), "admin".to_string())
        .port("8443".to_string());
    let req = b.login_request(&mut profile, Some(&pw)).unwrap();
    assert_eq!(profile.url, ":8443/api/oauth2/token");
    assert_eq!(profile.port, "8443");
    // the API version was not overridden, so the rest stands
    assert_eq!(profile.api_version, "v1");
    assert_eq!(req.url, "https://10.1.2.3:8443/api/oauth2/token");
}

#[test]
fn test_login_request_api_version_override_without_marker() {
    // the VBR URL suffix holds no version marker, so only the field moves
    let mut profile = VProfile::VBR.profile_data();
    let pw = "pw".to_string();
    let b = VServerBuilder::new(&"10.1.2.3".to_string(), "admin".to_string())
        .api_version("v2".to_string());
    b.login_request(&mut profile, Some(&pw)).unwrap();
    assert_eq!(profile.url, ":9419/api/oauth2/token");
    assert_eq!(profile.api_version, "v2");
}

#[test]
fn test_login_request_invalid_x_api_version() {
    let mut profile = VProfile::VBR.profile_data();
    let pw = "pw".to_string();
    let b = VServerBuilder::new(&"10.1.2.3".to_string(), "admin".to_string())
        .x_api_version("bad\nvalue".to_string());
    let r = b.login_request(&mut profile, Some(&pw));
    assert!(matches!(r, Err(LogInError::InvalidHeaderValue)));
    assert!(profile.x_api_version == Some("1.2-rev1".to_string()));
}

#[test]
fn test_interpret_401() {
    let profile = VProfile::VBR.profile_data();
    let r = interpret_login_response(&profile, 401, None, "");
    assert!(matches!(r, Err(LogInError::StatusCodeError(401))));
}

#[test]
fn test_interpret_session() {
    let profile = VProfile::ENTMAN.profile_data();
    let sid = "sess-id-1".to_string();
    let r = interpret_login_response(&profile, 200, Some(&sid), "").unwrap();
    assert_eq!(r.access_token, "sess-id-1");
    assert_eq!(r.refresh_token, "sess-id-1");
    assert_eq!(r.token_type, "");
    assert_eq!(r.expires_in, 900);
}

#[test]
fn test_interpret_session_missing_header() {
    let profile = VProfile::ENTMAN.profile_data();
    let r = interpret_login_response(&profile, 201, None, "");
    assert!(matches!(r, Err(LogInError::MissingSessionHeader)));
}

#[test]
fn test_interpret_bearer_body() {
    let profile = VProfile::VB365.profile_data();
    let body = "{\"access_token\":\"tok\",\"token_type\":\"bearer\",\"refresh_token\":\"ref\",\"expires_in\":1200}";
    let r = interpret_login_response(&profile, 200, None, body).unwrap();
    assert_eq!(r.access_token, "tok");
    assert_eq!(r.token_type, "bearer");
    assert_eq!(r.refresh_token, "ref");
    assert_eq!(r.expires_in, 1200);
}

#[test]
fn test_interpret_bearer_malformed() {
    let profile = VProfile::VBR.profile_data();
    let r = interpret_login_response(&profile, 204, None, "oops");
    assert!(matches!(r, Err(LogInError::MalformedLoginBody)));
}

#[test]
fn test_error_messages() {
    assert_eq!(
        LogInError::StatusCodeError(401).message(),
        "status code error 401"
    );
    assert_eq!(
        LogInError::TransportError("boom".to_string()).message(),
        "transport error: boom"
    );
    assert_eq!(LogInError::MissingCredential.message(), "the password is missing or empty");
}

#[test]
fn test_creds() {
    let c = Creds::new("u1", "p1");
    assert_eq!(c.grant_type, "password");
    assert_eq!(c.username, "u1");
    assert_eq!(c.password, "p1");
    let d = Creds::default();
    assert_eq!(d.grant_type, "password");
    assert_eq!(d.username, "");
    assert_eq!(d.password, "");
}
