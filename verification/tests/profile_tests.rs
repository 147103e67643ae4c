use vauth::{build_auth_headers, build_url, LogInError, Profile, VProfile};

#[test]
fn it_works() {
    assert_eq!(2 + 2, 4);
}

#[test]
fn test_build_url() {
    let address = String::from("192.168.0.123");
    let end_point = String::from("backups");
    let profile = VProfile::VBR.profile_data();
    let url = profile.build_url(&address, &end_point).unwrap();
    assert_eq!(url, "https://192.168.0.123:9419/api/v1/backups");
}

#[test]
fn test_build_profile() {
    let profile = VProfile::VBR.profile_data();
    assert!(profile.name == "VBR");
    assert!(profile.port == "9419");
    assert!(profile.url == ":9419/api/oauth2/token");
    assert!(profile.api_version == "v1");
    assert!(profile.x_api_version == Some("1.2-rev1".to_string()));
}

#[test]
fn test_profile_defaults() {
    let p = VProfile::VB365.profile_data();
    assert!(p.name == "VB365" && p.port == "4443" && p.api_version == "v8");
    assert!(p.url == ":4443/v7/Token" && p.x_api_version.is_none());

    let p = VProfile::VBAWS.profile_data();
    assert!(p.name == "VBAWS" && p.port == "11005" && p.api_version == "v1");
    assert!(p.url == ":11005/api/v1/token");
    assert!(p.x_api_version == Some("1.7-rev0".to_string()));

    let p = VProfile::VBAZURE.profile_data();
    assert!(p.name == "VBAZURE" && p.port == "" && p.api_version == "v8");
    assert!(p.url == "/api/oauth2/token" && p.x_api_version.is_none());

    let p = VProfile::VBGCP.profile_data();
    assert!(p.name == "VBGCP" && p.port == "13140" && p.api_version == "v1");
    assert!(p.x_api_version == Some("1.4-rev0".to_string()));

    let p = VProfile::VONE.profile_data();
    assert!(p.name == "VONE" && p.port == "1239" && p.api_version == "v2.2");
    assert!(p.url == ":1239/api/token" && p.x_api_version.is_none());

    let p = VProfile::ENTMAN.profile_data();
    assert!(p.name == "ENTMAN" && p.port == "9398" && p.api_version == "");
    assert!(p.url == ":9398/api/sessionMngr/?v=latest" && p.x_api_version.is_none());
}

#[test]
fn test_build_url_shapes() {
    let address = String::from("10.0.0.7");
    let ep = String::from("jobs");
    let azure = VProfile::VBAZURE.profile_data().build_url(&address, &ep).unwrap();
    assert_eq!(azure, "https://10.0.0.7/api/v8/jobs");
    let vb365 = VProfile::VB365.profile_data().build_url(&address, &ep).unwrap();
    assert_eq!(vb365, "https://10.0.0.7:4443/v8/jobs");
    let entman = VProfile::ENTMAN.profile_data().build_url(&address, &ep).unwrap();
    assert_eq!(entman, "https://10.0.0.7:9398/api/jobs");
    let vone = VProfile::VONE.profile_data().build_url(&address, &ep).unwrap();
    assert_eq!(vone, "https://10.0.0.7:1239/api/v2.2/jobs");
}

#[test]
fn test_build_url_invalid_address() {
    let address = String::from("not-an-ip");
    let ep = String::from("backups");
    for profile in [
        VProfile::VBR.profile_data(),
        VProfile::VB365.profile_data(),
        VProfile::ENTMAN.profile_data(),
        VProfile::VBAZURE.profile_data(),
    ] {
        let r = profile.build_url(&address, &ep);
        assert!(matches!(r, Err(LogInError::InvalidAddress)));
    }
}

#[test]
fn test_build_url_unknown_profile() {
    let profile = Profile::new(
        "CUSTOM".to_string(),
        ":1234/api/oauth2/token".to_string(),
        "1234".to_string(),
        "v1".to_string(),
        None,
    );
    let r = profile.build_url(&String::from("10.0.0.1"), &String::from("backups"));
    assert!(matches!(r, Err(LogInError::UnresolvedProfile)));
}

#[test]
fn test_get_profile() {
    let p = Profile::get_profile(VProfile::VONE);
    assert!(p.name == "VONE");
    assert!(p.port == "1239");
}

#[test]
fn test_auth_headers_bearer() {
    let profile = VProfile::VBR.profile_data();
    let token = String::from("\t abc123 \n");
    let headers = profile.build_auth_headers(&token).unwrap();
    assert_eq!(headers.len(), 4);
    assert_eq!(headers[0], ("Accept".to_string(), "application/json".to_string()));
    assert_eq!(headers[1], ("Content-Type".to_string(), "application/json".to_string()));
    assert_eq!(headers[2], ("Authorization".to_string(), "Bearer abc123".to_string()));
    assert_eq!(headers[3], ("X-Api-Version".to_string(), "1.2-rev1".to_string()));
}

#[test]
fn test_auth_headers_bearer_no_version() {
    let profile = VProfile::VONE.profile_data();
    let token = String::from("tok");
    let headers = profile.build_auth_headers(&token).unwrap();
    assert_eq!(headers.len(), 3);
    assert_eq!(headers[2], ("Authorization".to_string(), "Bearer tok".to_string()));
}

#[test]
fn test_auth_headers_session() {
    let profile = VProfile::ENTMAN.profile_data();
    let token = String::from(" raw-session-id ");
    let headers = profile.build_auth_headers(&token).unwrap();
    assert_eq!(headers.len(), 3);
    assert_eq!(headers[0], ("Accept".to_string(), "application/json".to_string()));
    assert_eq!(headers[1], ("Content-Type".to_string(), "application/json".to_string()));
    // the session header carries the token exactly, no prefix and no trim
    assert_eq!(headers[2], ("X-RestSvcSessionId".to_string(), " raw-session-id ".to_string()));
}

#[test]
fn test_auth_headers_invalid_value() {
    let profile = VProfile::VBR.profile_data();
    let token = String::from("abc\ndef");
    let r = profile.build_auth_headers(&token);
    assert!(matches!(r, Err(LogInError::InvalidHeaderValue)));
    let session = VProfile::ENTMAN.profile_data();
    let r = session.build_auth_headers(&String::from("a\u{7f}b"));
    assert!(matches!(r, Err(LogInError::InvalidHeaderValue)));
}

#[test]
fn test_auth_headers_from_response() {
    let profile = VProfile::VBGCP.profile_data();
    let resp = vauth::LoginResponse {
        access_token: " tok9 ".to_string(),
        token_type: "bearer".to_string(),
        refresh_token: "r".to_string(),
        expires_in: 3600,
    };
    let headers = profile.build_auth_headers_from_response(&resp).unwrap();
    assert_eq!(headers[2], ("Authorization".to_string(), "Bearer tok9".to_string()));
    assert_eq!(headers[3], ("X-Api-Version".to_string(), "1.4-rev0".to_string()));
}

#[test]
fn test_auth_headers_unicode_whitespace_trim() {
    // the bearer token is trimmed of Unicode whitespace, as str::trim does
    let profile = VProfile::VB365.profile_data();
    let token = String::from("\u{a0}\u{2003}tok\u{a0}");
    let headers = profile.build_auth_headers(&token).unwrap();
    assert_eq!(headers[2], ("Authorization".to_string(), "Bearer tok".to_string()));
}

#[test]
fn test_helper_functions() {
    let profile = VProfile::VBR.profile_data();
    let url = build_url(
        &String::from("192.168.0.123"),
        &String::from("backups"),
        &profile,
    )
    .unwrap();
    assert_eq!(url, "https://192.168.0.123:9419/api/v1/backups");
    let headers = build_auth_headers(&String::from("t"), &profile).unwrap();
    assert_eq!(headers[2], ("Authorization".to_string(), "Bearer t".to_string()));
}
