use sudo_gcp::{AccessToken, Email, GcloudConfig, Lifetime, Scopes};

fn items(s: &Scopes) -> Vec<String> {
    s.items().clone()
}

#[test]
fn scopes_parse_sorts_and_collapses_repeats() {
    let s = Scopes::from_str("b,a,b").unwrap();
    assert_eq!(items(&s), vec!["a".to_string(), "b".to_string()]);
    assert_eq!(s.to_text(), "a,b");
}

#[test]
fn scopes_equality_ignores_order() {
    let a = Scopes::from_str("A,B").unwrap();
    let b = Scopes::from_str("B,A").unwrap();
    let c = Scopes::from_str("A").unwrap();
    assert!(a == b);
    assert!(a != c);
}

#[test]
fn scopes_parse_keeps_empty_pieces() {
    let s = Scopes::from_str("").unwrap();
    assert_eq!(items(&s), vec!["".to_string()]);
    let t = Scopes::from_str("x,,y").unwrap();
    assert_eq!(items(&t), vec!["".to_string(), "x".to_string(), "y".to_string()]);
}

#[test]
fn scopes_from_list_collapses_repeats() {
    let s = Scopes::from_list(vec!["z".to_string(), "a".to_string(), "z".to_string()]);
    assert_eq!(s.to_text(), "a,z");
}

#[test]
fn scopes_default_holds_the_six_defaults() {
    let d = Scopes::default();
    assert_eq!(d.len(), 6);
    assert_eq!(
        d.to_text(),
        "email,https://www.googleapis.com/auth/cloud-platform,https://www.googleapis.com/auth/userinfo.email,https://www.googleapis.com/auth/userinfo.profile,openid,profile"
    );
}

#[test]
fn append_scopes_adds_to_the_defaults() {
    let base = Scopes::from_str("ignored").unwrap();
    let extra = Scopes::from_str("extra,openid").unwrap();
    let r = base.append_scopes(extra);
    assert_eq!(r.len(), 7);
    assert!(items(&r).contains(&"extra".to_string()));
    assert!(!items(&r).contains(&"ignored".to_string()));
}

#[test]
fn lifetime_parses_bare_and_suffixed() {
    assert_eq!(Lifetime::from_str("3600").unwrap().seconds(), 3600);
    assert_eq!(Lifetime::from_str("3600s").unwrap().seconds(), 3600);
    assert_eq!(Lifetime::from_str("0").unwrap().seconds(), 0);
    assert_eq!(Lifetime::from_str("18446744073709551615s").unwrap().seconds(), u64::MAX);
}

#[test]
fn lifetime_rejects_bad_text() {
    assert!(Lifetime::from_str("").is_err());
    assert!(Lifetime::from_str("s").is_err());
    assert!(Lifetime::from_str("abc").is_err());
    assert!(Lifetime::from_str("12ss").is_err());
    assert!(Lifetime::from_str(" 12").is_err());
    assert!(Lifetime::from_str("18446744073709551616").is_err());
}

#[test]
fn lifetime_text_and_default() {
    assert_eq!(Lifetime::default().seconds(), 3600);
    assert_eq!(Lifetime::default().to_text(), "3600s");
    assert_eq!(Lifetime::from_seconds(7).to_text(), "7s");
    assert_eq!(Lifetime::from_seconds(1200).to_text(), "1200s");
}

#[test]
fn gcloud_config_splits_at_first_comma() {
    let g = GcloudConfig::from_str("  me@example.com,tok,en \n").unwrap();
    assert_eq!(g.account(), "me@example.com");
    assert_eq!(g.access_token().as_str(), "tok,en");
}

#[test]
fn gcloud_config_without_comma_is_refused() {
    assert!(GcloudConfig::from_str("me@example.com tok\n").is_err());
    assert!(GcloudConfig::from_str("").is_err());
}

#[test]
fn email_and_token_keep_their_text() {
    let e = Email::from_str("svc@proj.iam.gserviceaccount.com").unwrap();
    assert_eq!(e.as_str(), "svc@proj.iam.gserviceaccount.com");
    assert_eq!(e.to_text(), "svc@proj.iam.gserviceaccount.com");
    let t = AccessToken::from_str("abc").unwrap();
    assert_eq!(t.as_str(), "abc");
    assert_eq!(AccessToken::new("x".to_string()).duplicate().as_str(), "x");
}

#[test]
fn lifetime_text_reads_back() {
    for n in [0u64, 9, 10, 3600, u64::MAX] {
        let l = Lifetime::from_seconds(n);
        assert_eq!(Lifetime::from_str(&l.to_text()).unwrap().seconds(), n);
    }
}
