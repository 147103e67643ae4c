use vauth::{LogInError, LoginResponse};

#[test]
fn test_to_json_exact() {
    let r = LoginResponse {
        access_token: "abc".to_string(),
        token_type: "bearer".to_string(),
        refresh_token: "def".to_string(),
        expires_in: 3600,
    };
    assert_eq!(
        r.to_json(),
        "{\"access_token\":\"abc\",\"token_type\":\"bearer\",\"refresh_token\":\"def\",\"expires_in\":3600}"
    );
}

#[test]
fn test_to_json_escapes() {
    let r = LoginResponse {
        access_token: "a\"b\\c\nd".to_string(),
        token_type: "".to_string(),
        refresh_token: "\u{1}".to_string(),
        expires_in: 0,
    };
    assert_eq!(
        r.to_json(),
        "{\"access_token\":\"a\\\"b\\\\c\\u000ad\",\"token_type\":\"\",\"refresh_token\":\"\\u0001\",\"expires_in\":0}"
    );
}

#[test]
fn test_round_trip() {
    let r = LoginResponse {
        access_token: "ab\"c\\d\ne\u{1}f🦀 g".to_string(),
        token_type: "bearer".to_string(),
        refresh_token: "refresh-123".to_string(),
        expires_in: 3600,
    };
    let back = LoginResponse::from_json(&r.to_json()).unwrap();
    assert_eq!(back, r);
}

#[test]
fn test_round_trip_negative_expiry() {
    let r = LoginResponse {
        access_token: "".to_string(),
        token_type: "".to_string(),
        refresh_token: "\t\r".to_string(),
        expires_in: -5,
    };
    let back = LoginResponse::from_json(&r.to_json()).unwrap();
    assert_eq!(back, r);
}

#[test]
fn test_from_json_whitespace_and_order() {
    let s = " { \"expires_in\" : 900 , \"refresh_token\" : \"r\" , \"token_type\" : \"\" , \"access_token\" : \"a\" } ";
    let r = LoginResponse::from_json(s).unwrap();
    assert_eq!(r.access_token, "a");
    assert_eq!(r.token_type, "");
    assert_eq!(r.refresh_token, "r");
    assert_eq!(r.expires_in, 900);
}

#[test]
fn test_from_json_unknown_members_ignored() {
    let s = "{\"access_token\":\"a\",\"foo\":null,\"bar\":true,\"baz\":-12,\"qux\":\"zap\",\"token_type\":\"t\",\"refresh_token\":\"r\",\"expires_in\":1}";
    let r = LoginResponse::from_json(s).unwrap();
    assert_eq!(r.access_token, "a");
    assert_eq!(r.expires_in, 1);
}

#[test]
fn test_from_json_escapes() {
    let s = "{\"access_token\":\"\\u0041\\n\\t\\\"\\\\\\/\",\"token_type\":\"\",\"refresh_token\":\"\",\"expires_in\":2}";
    let r = LoginResponse::from_json(s).unwrap();
    assert_eq!(r.access_token, "A\n\t\"\\/");
}

#[test]
fn test_from_json_malformed() {
    for s in [
        "",
        "{",
        "[1]",
        "oops",
        "{}",
        "{\"access_token\":\"a\"}",
        "{\"access_token\":5,\"token_type\":\"t\",\"refresh_token\":\"r\",\"expires_in\":1}",
        "{\"access_token\":\"a\",\"access_token\":\"b\",\"token_type\":\"t\",\"refresh_token\":\"r\",\"expires_in\":1}",
        "{\"access_token\":\"a\",\"token_type\":\"t\",\"refresh_token\":\"r\",\"expires_in\":\"1\"}",
        "{\"access_token\":\"a\",\"token_type\":\"t\",\"refresh_token\":\"r\",\"expires_in\":1} x",
        "{\"access_token\":\"a\",\"token_type\":\"t\",\"refresh_token\":\"r\",\"expires_in\":99999999999}",
        "{\"access_token\":\"a\",\"token_type\":\"t\",\"refresh_token\":\"r\",\"expires_in\":007}",
    ] {
        let r = LoginResponse::from_json(s);
        assert!(matches!(r, Err(LogInError::MalformedLoginBody)), "accepted: {}", s);
    }
}
