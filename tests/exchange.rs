use sudo_gcp::exchange::build_token_request;
use sudo_gcp::{AccessToken, Delegates, Email, ExchangeError, Lifetime, Scopes};

#[test]
fn request_body_without_delegates() {
    let id = Email::from_str("svc@proj.iam.gserviceaccount.com").unwrap();
    let cred = AccessToken::from_str("ambient").unwrap();
    let scopes = Scopes::from_str("https://www.googleapis.com/auth/cloud-platform").unwrap();
    let r = build_token_request(&id, &cred, &scopes, &Lifetime::from_seconds(3600), &None);
    assert_eq!(
        r.body,
        r#"{"lifetime":"3600s","scope":["https://www.googleapis.com/auth/cloud-platform"]}"#
    );
    assert_eq!(
        r.url,
        "https://iamcredentials.googleapis.com/v1/projects/-/serviceAccounts/svc@proj.iam.gserviceaccount.com:generateAccessToken"
    );
    assert_eq!(r.bearer, "ambient");
}

#[test]
fn request_body_with_delegates() {
    let id = Email::from_str("a@b").unwrap();
    let cred = AccessToken::from_str("c").unwrap();
    let scopes = Scopes::from_str("y,x").unwrap();
    let d = Some(Delegates::new(vec!["d1@b".to_string(), "d0@b".to_string()]));
    let r = build_token_request(&id, &cred, &scopes, &Lifetime::from_seconds(60), &d);
    assert_eq!(
        r.body,
        r#"{"lifetime":"60s","scope":["x","y"],"delegates":["d1@b","d0@b"]}"#
    );
}

#[test]
fn request_body_escapes_strings() {
    let id = Email::from_str("a@b").unwrap();
    let cred = AccessToken::from_str("c").unwrap();
    let scopes = Scopes::from_list(vec!["q\"\\\n\u{1}".to_string()]);
    let r = build_token_request(&id, &cred, &scopes, &Lifetime::from_seconds(5), &None);
    assert_eq!(r.body, "{\"lifetime\":\"5s\",\"scope\":[\"q\\\"\\\\\\n\\u0001\"]}");
}

#[test]
fn protocol_fault_keeps_an_excerpt() {
    let body = "x".repeat(300);
    match ExchangeError::protocol("bad json".to_string(), &body) {
        ExchangeError::Protocol { detail, excerpt } => {
            assert_eq!(detail, "bad json");
            assert_eq!(excerpt, "x".repeat(200));
        }
        other => panic!("unexpected {:?}", other),
    }
    match ExchangeError::protocol("d".to_string(), "short") {
        ExchangeError::Protocol { excerpt, .. } => assert_eq!(excerpt, "short"),
        other => panic!("unexpected {:?}", other),
    }
}
