use concur_server::registry::{Phase, RegistryError, SessionRegistry, TakeOutcome};

fn token_of(outcome: TakeOutcome) -> Option<String> {
    match outcome {
        TakeOutcome::Token(t) => Some(t),
        _ => None,
    }
}

#[test]
fn take_returns_the_token_delivered_to_that_session() {
    let mut r = SessionRegistry::new(60_000);
    assert_eq!(r.create_at("a".to_string(), 1), Ok(()));
    assert_eq!(r.create_at("b".to_string(), 2), Ok(()));
    assert_eq!(r.deliver("a", "token-a".to_string()), Ok(()));
    assert_eq!(r.deliver("b", "token-b".to_string()), Ok(()));
    assert_eq!(token_of(r.take("b")), Some("token-b".to_string()));
    assert_eq!(token_of(r.take("a")), Some("token-a".to_string()));
}

#[test]
fn second_delivery_is_rejected_and_first_token_stays() {
    let mut r = SessionRegistry::new(60_000);
    assert_eq!(r.create_at("s".to_string(), 1), Ok(()));
    assert_eq!(r.deliver("s", "first".to_string()), Ok(()));
    assert_eq!(r.deliver("s", "second".to_string()), Err(RegistryError::AlreadyDelivered));
    assert_eq!(token_of(r.take("s")), Some("first".to_string()));
}

#[test]
fn take_before_delivery_leaves_the_session_waiting() {
    let mut r = SessionRegistry::new(60_000);
    assert_eq!(r.create_at("s".to_string(), 1), Ok(()));
    assert!(matches!(r.take("s"), TakeOutcome::NotYetDelivered));
    assert!(r.contains("s"));
    assert_eq!(r.deliver("s", "t".to_string()), Ok(()));
    assert_eq!(token_of(r.take("s")), Some("t".to_string()));
}

#[test]
fn token_is_read_once_and_session_is_evicted() {
    let mut r = SessionRegistry::new(60_000);
    assert_eq!(r.create_at("s".to_string(), 1), Ok(()));
    assert_eq!(r.deliver("s", "t".to_string()), Ok(()));
    assert!(matches!(r.take("s"), TakeOutcome::Token(_)));
    assert!(matches!(r.take("s"), TakeOutcome::NotFound));
    assert!(!r.contains("s"));
    assert_eq!(r.deliver("s", "t".to_string()), Err(RegistryError::NotFound));
}

#[test]
fn unknown_session_is_not_found() {
    let mut r = SessionRegistry::new(60_000);
    assert!(matches!(r.take("nobody"), TakeOutcome::NotFound));
    assert_eq!(r.deliver("nobody", "t".to_string()), Err(RegistryError::NotFound));
    assert_eq!(r.phase("nobody"), Phase::Gone);
}

#[test]
fn duplicate_identifier_is_refused() {
    let mut r = SessionRegistry::new(60_000);
    assert_eq!(r.create_at("s".to_string(), 1), Ok(()));
    assert_eq!(r.create_at("s".to_string(), 2), Err(RegistryError::DuplicateId));
}

#[test]
fn create_draws_distinct_identifiers_of_uuid_length() {
    let mut r = SessionRegistry::new(60_000);
    let a = r.create().unwrap();
    let b = r.create().unwrap();
    assert_eq!(a.chars().count(), 36);
    assert_eq!(b.chars().count(), 36);
    assert_ne!(a, b);
    assert_eq!(a.as_bytes()[8], b'-');
    assert_eq!(a.as_bytes()[14], b'4');
    assert!(r.contains(&a));
    assert!(r.contains(&b));
    assert_eq!(r.phase(&a), Phase::Started);
}

#[test]
fn phases_follow_the_handshake() {
    let mut r = SessionRegistry::new(60_000);
    assert_eq!(r.create_at("s".to_string(), 1), Ok(()));
    assert_eq!(r.phase("s"), Phase::Started);
    assert_eq!(r.bind_state("s", "csrf".to_string()), Ok(()));
    assert_eq!(r.phase("s"), Phase::AwaitingRedirect);
    assert_eq!(r.deliver("s", "t".to_string()), Ok(()));
    assert_eq!(r.phase("s"), Phase::Delivered);
    assert!(matches!(r.take("s"), TakeOutcome::Token(_)));
    assert_eq!(r.phase("s"), Phase::Gone);
}

#[test]
fn csrf_state_is_bound_to_one_session() {
    let mut r = SessionRegistry::new(60_000);
    assert_eq!(r.create_at("a".to_string(), 1), Ok(()));
    assert_eq!(r.create_at("b".to_string(), 1), Ok(()));
    assert_eq!(r.bind_state("a", "x".to_string()), Ok(()));
    assert_eq!(r.bind_state("b", "x".to_string()), Err(RegistryError::StateInUse));
    assert_eq!(r.bind_state("a", "x".to_string()), Ok(()));
    assert_eq!(r.bind_state("b", "y".to_string()), Ok(()));
    assert_eq!(r.find_by_state("x"), Some("a".to_string()));
    assert_eq!(r.find_by_state("y"), Some("b".to_string()));
    assert_eq!(r.find_by_state("z"), None);
    assert_eq!(r.bind_state("c", "z".to_string()), Err(RegistryError::NotFound));
    assert_eq!(r.deliver("a", "t".to_string()), Ok(()));
    assert_eq!(r.bind_state("a", "w".to_string()), Err(RegistryError::AlreadyDelivered));
}

#[test]
fn expire_removes_only_stale_undelivered_sessions() {
    let mut r = SessionRegistry::new(100);
    assert_eq!(r.create_at("old".to_string(), 0), Ok(()));
    assert_eq!(r.create_at("edge".to_string(), 900), Ok(()));
    assert_eq!(r.create_at("young".to_string(), 950), Ok(()));
    assert_eq!(r.create_at("old-delivered".to_string(), 0), Ok(()));
    assert_eq!(r.deliver("old-delivered", "t".to_string()), Ok(()));
    r.expire(1000);
    assert!(!r.contains("old"));
    assert!(r.contains("edge"));
    assert!(r.contains("young"));
    assert!(r.contains("old-delivered"));
    r.expire(1001);
    assert!(!r.contains("edge"));
    assert!(r.contains("young"));
}

#[test]
fn expire_handles_the_ends_of_time() {
    let mut r = SessionRegistry::new(i64::MAX);
    assert_eq!(r.create_at("s".to_string(), i64::MIN), Ok(()));
    r.expire(i64::MAX);
    assert!(!r.contains("s"));
    let mut q = SessionRegistry::new(0);
    assert_eq!(q.create_at("s".to_string(), i64::MAX), Ok(()));
    q.expire(i64::MIN);
    assert!(q.contains("s"));
}
