use tubedb::auth::{check_second_response, AuthInfo, AuthStep};
use tubedb::digest::{compute_response, md5_hex_str, parse_challenge};
use tubedb::Error;

fn rfc_challenge() -> String {
    "Digest realm=\"testrealm@host.com\", qop=\"auth,auth-int\", nonce=\"dcd98b7102dd2f0e8b11d0f600bfb0c093\", opaque=\"5ccc069c403ebaf9f0171e9517f40e41\"".to_string()
}

fn mufasa() -> AuthInfo {
    AuthInfo::Digest {
        username: "Mufasa".to_string(),
        password: "Circle Of Life".to_string(),
    }
}

#[test]
fn test_md5_hex_of_empty_input() {
    assert_eq!("d41d8cd98f00b204e9800998ecf8427e", md5_hex_str(""));
}

#[test]
fn test_basic_authorization_value() {
    let auth = AuthInfo::Basic {
        username: "user".to_string(),
        password: "pass".to_string(),
    };
    assert_eq!(
        Some("Basic dXNlcjpwYXNz".to_string()),
        auth.initial_authorization()
    );
}

#[test]
fn test_basic_authorization_padding() {
    let auth = AuthInfo::Basic {
        username: "ab".to_string(),
        password: "c".to_string(),
    };
    // "ab:c" encodes to a padded group.
    assert_eq!(
        Some("Basic YWI6Yw==".to_string()),
        auth.initial_authorization()
    );
}

#[test]
fn test_none_mode_attaches_no_header() {
    assert_eq!(None, AuthInfo::NoAuth.initial_authorization());
}

#[test]
fn test_digest_mode_first_request_bare() {
    assert_eq!(None, mufasa().initial_authorization());
}

#[test]
fn test_basic_mode_single_request() {
    let auth = AuthInfo::Basic {
        username: "user".to_string(),
        password: "pass".to_string(),
    };
    let challenge = rfc_challenge();
    let step = auth.on_first_response(401, Some(&challenge), "GET", "/dir/index.html", "0a4f113b");
    assert!(matches!(step, AuthStep::Accept));
}

#[test]
fn test_none_mode_single_request() {
    let step = AuthInfo::NoAuth.on_first_response(500, None, "GET", "/x", "c");
    assert!(matches!(step, AuthStep::Accept));
}

#[test]
fn test_digest_reference_response_hash() {
    // The worked example of the Digest scheme's specification.
    let response = compute_response(
        "Mufasa",
        "Circle Of Life",
        "testrealm@host.com",
        "dcd98b7102dd2f0e8b11d0f600bfb0c093",
        "GET",
        "/dir/index.html",
        "0a4f113b",
        true,
    );
    assert_eq!("6629fae49393a05397450978507c4ef1", response);
}

#[test]
fn test_digest_challenge_answered() {
    let challenge = rfc_challenge();
    let step =
        mufasa().on_first_response(401, Some(&challenge), "GET", "/dir/index.html", "0a4f113b");
    match step {
        AuthStep::Retry { authorization } => {
            assert!(authorization.starts_with("Digest username=\"Mufasa\""));
            assert!(authorization.contains("realm=\"testrealm@host.com\""));
            assert!(authorization.contains("nonce=\"dcd98b7102dd2f0e8b11d0f600bfb0c093\""));
            assert!(authorization.contains("uri=\"/dir/index.html\""));
            assert!(authorization.contains("qop=auth"));
            assert!(authorization.contains("nc=00000001"));
            assert!(authorization.contains("cnonce=\"0a4f113b\""));
            assert!(authorization.contains("response=\"6629fae49393a05397450978507c4ef1\""));
            assert!(authorization.contains("opaque=\"5ccc069c403ebaf9f0171e9517f40e41\""));
        }
        other => panic!("expected a retry, got {:?}", step_name(&other)),
    }
}

#[test]
fn test_digest_non_challenge_accepted() {
    let step = mufasa().on_first_response(200, None, "GET", "/x", "c");
    assert!(matches!(step, AuthStep::Accept));
}

#[test]
fn test_digest_missing_challenge_rejected() {
    let step = mufasa().on_first_response(401, None, "GET", "/x", "c");
    assert!(matches!(step, AuthStep::Reject { .. }));
}

#[test]
fn test_digest_malformed_challenge_rejected() {
    let header = "Digest realm".to_string();
    let step = mufasa().on_first_response(401, Some(&header), "GET", "/x", "c");
    match step {
        AuthStep::Reject { message } => assert_eq!("malformed Digest challenge", message),
        other => panic!("expected a rejection, got {:?}", step_name(&other)),
    }
}

#[test]
fn test_digest_unsupported_algorithm_rejected() {
    let header = "Digest realm=\"r\", nonce=\"n\", algorithm=SHA-256".to_string();
    let step = mufasa().on_first_response(401, Some(&header), "GET", "/x", "c");
    match step {
        AuthStep::Reject { message } => assert_eq!("unsupported Digest challenge", message),
        other => panic!("expected a rejection, got {:?}", step_name(&other)),
    }
}

#[test]
fn test_digest_unsupported_qop_rejected() {
    let header = "Digest realm=\"r\", nonce=\"n\", qop=\"auth-int\"".to_string();
    let step = mufasa().on_first_response(401, Some(&header), "GET", "/x", "c");
    assert!(matches!(step, AuthStep::Reject { .. }));
}

#[test]
fn test_digest_without_qop_uses_legacy_form() {
    let header = "Digest realm=\"r\", nonce=\"n\"".to_string();
    let step = mufasa().on_first_response(401, Some(&header), "GET", "/x", "c");
    match step {
        AuthStep::Retry { authorization } => {
            assert!(!authorization.contains("qop="));
            assert!(!authorization.contains("cnonce="));
            assert!(!authorization.contains("opaque="));
        }
        other => panic!("expected a retry, got {:?}", step_name(&other)),
    }
}

#[test]
fn test_second_challenge_is_protocol_error() {
    let challenge = rfc_challenge();
    let res = check_second_response(401, Some(&challenge));
    assert!(matches!(res, Err(Error::AuthProtocol(_))));
}

#[test]
fn test_second_plain_response_accepted() {
    assert!(check_second_response(200, None).is_ok());
    let other = "Basic realm=\"r\"".to_string();
    assert!(check_second_response(401, Some(&other)).is_ok());
}

#[test]
fn test_parse_challenge_fields() {
    let ch = parse_challenge(&rfc_challenge()).unwrap();
    assert_eq!("testrealm@host.com", ch.realm);
    assert_eq!("dcd98b7102dd2f0e8b11d0f600bfb0c093", ch.nonce);
    assert_eq!(Some("5ccc069c403ebaf9f0171e9517f40e41".to_string()), ch.opaque);
    assert_eq!(Some("auth,auth-int".to_string()), ch.qop);
    assert_eq!(None, ch.algorithm);
    assert_eq!(None, parse_challenge("Basic realm=\"r\""));
    assert_eq!(None, parse_challenge("Digest realm=\"unclosed"));
}

#[test]
fn test_parse_challenge_quoted_pair() {
    let ch = parse_challenge("Digest realm=\"te\\\"st\", nonce=\"n\"").unwrap();
    assert_eq!("te\"st", ch.realm);
    assert_eq!("n", ch.nonce);
}

#[test]
fn test_parse_challenge_scheme_case_insensitive() {
    let ch = parse_challenge("digest realm=\"r\", nonce=\"n\"").unwrap();
    assert_eq!("r", ch.realm);
    assert!(parse_challenge("DIGEST realm=\"r\", nonce=\"n\"").is_some());
}

#[test]
fn test_digest_algorithm_case_insensitive() {
    let header = "Digest realm=\"r\", nonce=\"n\", algorithm=md5".to_string();
    let step = mufasa().on_first_response(401, Some(&header), "GET", "/x", "c");
    assert!(matches!(step, AuthStep::Retry { .. }));
}

#[test]
fn test_second_challenge_scheme_case_insensitive() {
    let lower = "digest realm=\"r\", nonce=\"n2\"".to_string();
    let res = check_second_response(401, Some(&lower));
    assert!(matches!(res, Err(Error::AuthProtocol(_))));
}

fn step_name(step: &AuthStep) -> &'static str {
    match step {
        AuthStep::Accept => "Accept",
        AuthStep::Retry { .. } => "Retry",
        AuthStep::Reject { .. } => "Reject",
    }
}
