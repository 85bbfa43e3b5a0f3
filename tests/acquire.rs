use sudo_gcp::{
    AccessToken, AcquireError, AcquireRequest, Acquisition, Email, Event, ExchangeError, Issued,
    Lifetime, Lookup, Scopes, Step, StoredSecret, Timestamp,
};

const NEW_YEAR_2025: i64 = 1_735_689_600;

fn request(scopes: &str) -> AcquireRequest {
    AcquireRequest {
        identity: Email::from_str("svc@proj.iam.gserviceaccount.com").unwrap(),
        scopes: Scopes::from_str(scopes).unwrap(),
        lifetime: Lifetime::from_seconds(3600),
        credential: AccessToken::from_str("ambient").unwrap(),
        delegates: None,
    }
}

fn cached(token: &str, scopes: &str, expire: i64) -> StoredSecret {
    StoredSecret {
        access_token: AccessToken::from_str(token).unwrap(),
        scopes: Scopes::from_str(scopes).unwrap(),
        expire_time: Timestamp::new(expire, 0),
    }
}

fn issued(token: &str, expire: i64) -> Issued {
    Issued { access_token: AccessToken::from_str(token).unwrap(), expire_time: Timestamp::new(expire, 0) }
}

fn done_token(step: Step) -> String {
    match step {
        Step::Done(Ok(t)) => t.as_str().to_string(),
        other => panic!("unexpected {:?}", other),
    }
}

/// Drives an acquisition from a store read through an exchange that issues
/// `new_token` and a successful write; returns the persisted secret and the
/// token handed out.
fn refresh(a: Acquisition, new_token: &str, expire: i64) -> (StoredSecret, String) {
    let (a, step) = a.advance(Event::Exchanged(Ok(issued(new_token, expire))));
    let saved = match step {
        Step::Save(s) => s,
        other => panic!("unexpected {:?}", other),
    };
    let (a, step) = a.advance(Event::Saved(Ok(())));
    assert!(matches!(a, Acquisition::Finished));
    (saved, done_token(step))
}

#[test]
fn absent_entry_exchanges_and_persists() {
    let req = request("https://www.googleapis.com/auth/cloud-platform");
    let (a, step) = Acquisition::start(req);
    assert!(matches!(step, Step::Load));
    let body = match &a {
        Acquisition::Lookup(r) => r.token_request().body,
        other => panic!("unexpected {:?}", other),
    };
    assert_eq!(
        body,
        r#"{"lifetime":"3600s","scope":["https://www.googleapis.com/auth/cloud-platform"]}"#
    );
    let (a, step) = a.advance(Event::Looked(Lookup::Missing, Timestamp::new(NEW_YEAR_2025 - 10, 0)));
    assert!(matches!(step, Step::Exchange));
    let (saved, token) = refresh(a, "ya29.xyz", NEW_YEAR_2025);
    assert_eq!(token, "ya29.xyz");
    assert_eq!(saved.access_token.as_str(), "ya29.xyz");
    assert_eq!(saved.scopes.to_text(), "https://www.googleapis.com/auth/cloud-platform");
    assert_eq!(saved.expire_time, Timestamp::new(NEW_YEAR_2025, 0));
}

#[test]
fn fresh_entry_is_reused() {
    let (a, _) = Acquisition::start(request("A,B"));
    let (a, step) = a.advance(Event::Looked(
        Lookup::Found(cached("old", "B,A", NEW_YEAR_2025)),
        Timestamp::new(NEW_YEAR_2025 - 1, 999_999_999),
    ));
    assert!(matches!(a, Acquisition::Finished));
    assert_eq!(done_token(step), "old");
}

#[test]
fn scope_change_refreshes_even_before_expiry() {
    let (a, _) = Acquisition::start(request("A,B"));
    let (a, step) = a.advance(Event::Looked(
        Lookup::Found(cached("old", "A", NEW_YEAR_2025 + 3600)),
        Timestamp::new(NEW_YEAR_2025, 0),
    ));
    assert!(matches!(step, Step::Exchange));
    let (saved, token) = refresh(a, "new", NEW_YEAR_2025 + 7200);
    assert_eq!(token, "new");
    assert_eq!(saved.access_token.as_str(), "new");
    assert_eq!(saved.scopes.to_text(), "A,B");
}

#[test]
fn expired_entry_refreshes() {
    let (a, _) = Acquisition::start(request("A"));
    let (a, step) = a.advance(Event::Looked(
        Lookup::Found(cached("old", "A", NEW_YEAR_2025)),
        Timestamp::new(NEW_YEAR_2025, 0),
    ));
    assert!(matches!(step, Step::Exchange));
    let (saved, token) = refresh(a, "new", NEW_YEAR_2025 + 3600);
    assert_eq!(token, "new");
    assert_eq!(saved.expire_time, Timestamp::new(NEW_YEAR_2025 + 3600, 0));
}

#[test]
fn store_fault_stops_before_exchange() {
    let (a, _) = Acquisition::start(request("A"));
    let (a, step) = a.advance(Event::Looked(Lookup::Fault("denied".to_string()), Timestamp::new(0, 0)));
    assert!(matches!(a, Acquisition::Finished));
    match step {
        Step::Done(Err(AcquireError::Store(f))) => assert_eq!(f, "denied"),
        other => panic!("unexpected {:?}", other),
    }
}

#[test]
fn failed_exchange_persists_nothing() {
    let (a, _) = Acquisition::start(request("A"));
    let (a, _) = a.advance(Event::Looked(Lookup::Missing, Timestamp::new(0, 0)));
    let (a, step) = a.advance(Event::Exchanged(Err(ExchangeError::Transport("timeout".to_string()))));
    assert!(matches!(a, Acquisition::Finished));
    assert!(matches!(step, Step::Done(Err(AcquireError::Exchange(ExchangeError::Transport(_))))));
}

#[test]
fn failed_write_is_reported() {
    let (a, _) = Acquisition::start(request("A"));
    let (a, _) = a.advance(Event::Looked(Lookup::Missing, Timestamp::new(0, 0)));
    let (a, _) = a.advance(Event::Exchanged(Ok(issued("t", 5))));
    let (_, step) = a.advance(Event::Saved(Err("locked".to_string())));
    assert!(matches!(step, Step::Done(Err(AcquireError::Store(_)))));
}

#[test]
fn events_out_of_order_end_the_acquisition() {
    let (a, _) = Acquisition::start(request("A"));
    let (a, step) = a.advance(Event::Saved(Ok(())));
    assert!(matches!(a, Acquisition::Finished));
    assert!(matches!(step, Step::Done(Err(AcquireError::OutOfOrder))));
    let (_, step) = a.advance(Event::Looked(Lookup::Missing, Timestamp::new(0, 0)));
    assert!(matches!(step, Step::Done(Err(AcquireError::OutOfOrder))));
}

#[test]
fn timestamps_order_by_seconds_then_nanoseconds() {
    let t = Timestamp::new(NEW_YEAR_2025, 5);
    assert!(Timestamp::new(NEW_YEAR_2025 - 1, 999_999_999).is_before(&t));
    assert!(Timestamp::new(NEW_YEAR_2025, 4).is_before(&t));
    assert!(!t.is_before(&t));
    assert!(!Timestamp::new(NEW_YEAR_2025 + 1, 0).is_before(&t));
}

#[test]
fn record_parts_round_trip() {
    let s = cached("tok", "b,a", NEW_YEAR_2025);
    let s = StoredSecret { expire_time: Timestamp::new(NEW_YEAR_2025, 123_456_789), ..s };
    let (token, scopes, secs, nanos) = s.to_parts();
    assert_eq!(token, "tok");
    assert_eq!(scopes, vec!["a".to_string(), "b".to_string()]);
    assert_eq!((secs, nanos), (NEW_YEAR_2025, 123_456_789));
    let back = StoredSecret::from_parts(token, scopes, secs, nanos);
    assert_eq!(back.access_token.as_str(), "tok");
    assert!(back.scopes == s.scopes);
    assert_eq!(back.expire_time, s.expire_time);
}
