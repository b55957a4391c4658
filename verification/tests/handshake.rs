use concur_server::handshake::{
    authorize_with_state, begin_redirect, build_authorize_url, complete_redirect, deadline_after,
    finish_redirect, issue_redirect, poll_token, poll_token_at, start_session, PollStep,
    ProviderConfig,
};
use concur_server::provider::{authorize_url, ProviderError};
use concur_server::registry::{Phase, SessionRegistry};
use concur_server::routes::AppError;
use concur_server::text::same_text;

fn config() -> ProviderConfig {
    ProviderConfig {
        authorize_endpoint: "https://provider.example/login/oauth/authorize".to_string(),
        client_id: "app-1".to_string(),
    }
}

#[test]
fn same_text_is_exact() {
    assert!(same_text("", ""));
    assert!(same_text("abc", "abc"));
    assert!(!same_text("abc", "abd"));
    assert!(!same_text("abc", "ab"));
    assert!(!same_text("ab", "abc"));
    assert!(!same_text("abc", "ABC"));
    assert!(same_text("h\u{e9}", "h\u{e9}"));
    assert!(!same_text("h\u{e9}", "he"));
}

#[test]
fn authorize_url_carries_client_and_state() {
    let url = authorize_url("https://provider.example/login/oauth/authorize", "app-1", "xyz");
    assert_eq!(
        url,
        Ok("https://provider.example/login/oauth/authorize?response_type=code&client_id=app-1&state=xyz"
            .to_string())
    );
    let escaped = authorize_url("https://p.example/a?x=1", "a b", "s&t").unwrap();
    assert_eq!(escaped, "https://p.example/a?x=1&response_type=code&client_id=a+b&state=s%26t");
    assert_eq!(authorize_url("not a url", "app-1", "xyz"), Err(ProviderError::InvalidEndpoint));
}

#[test]
fn csrf_mismatch_lets_no_code_through() {
    let r = complete_redirect("code".to_string(), "abc", "xyz");
    assert!(matches!(r, Err(AppError::CsrfMismatch)));
    assert!(matches!(complete_redirect("c".to_string(), "xy", "xyz"), Err(AppError::CsrfMismatch)));
    assert!(matches!(complete_redirect("c".to_string(), "xyzz", "xyz"), Err(AppError::CsrfMismatch)));
    assert!(matches!(complete_redirect("c".to_string(), "", "xyz"), Err(AppError::CsrfMismatch)));
    assert_eq!(complete_redirect("code".to_string(), "xyz", "xyz").unwrap(), "code");
}

#[test]
fn redirect_with_unknown_state_is_refused_and_nothing_is_delivered() {
    let mut r = SessionRegistry::new(60_000);
    r.create_at("s".to_string(), 0).unwrap();
    authorize_with_state(&config(), &mut r, "s", "xyz".to_string()).unwrap();
    assert!(matches!(begin_redirect(&r, "code".to_string(), "abc"), Err(AppError::CsrfMismatch)));
    assert_eq!(r.phase("s"), Phase::AwaitingRedirect);
    assert!(matches!(poll_token_at(&mut r, "s", 10, 20), PollStep::Wait(10)));
}

#[test]
fn end_to_end_handshake_delivers_the_exchanged_token() {
    let mut r = SessionRegistry::new(60_000);
    let id = start_session(&mut r).unwrap();
    assert_eq!(r.phase(&id), Phase::Started);
    let redirect = build_authorize_url(&config(), &mut r, &id).unwrap();
    assert_eq!(redirect.csrf_state.chars().count(), 22);
    assert_eq!(
        redirect.url,
        format!(
            "https://provider.example/login/oauth/authorize?response_type=code&client_id=app-1&state={}",
            redirect.csrf_state
        )
    );
    assert_eq!(r.phase(&id), Phase::AwaitingRedirect);
    let deadline = deadline_after(1_000, 5_000);
    assert_eq!(deadline, 6_000);
    assert!(matches!(poll_token_at(&mut r, &id, 1_000, deadline), PollStep::Wait(5_000)));
    let x = begin_redirect(&r, "valid-code".to_string(), &redirect.csrf_state).unwrap();
    assert_eq!(x.session_id, id);
    assert_eq!(x.code, "valid-code");
    let token = finish_redirect(&mut r, &x.session_id, Ok("gho_token".to_string())).unwrap();
    assert_eq!(token, "gho_token");
    assert_eq!(r.phase(&id), Phase::Delivered);
    match poll_token_at(&mut r, &id, 2_000, deadline) {
        PollStep::Ready(t) => assert_eq!(t, "gho_token"),
        other => panic!("unexpected {:?}", other),
    }
    assert_eq!(r.phase(&id), Phase::Gone);
    assert!(matches!(poll_token_at(&mut r, &id, 2_000, deadline), PollStep::NotFound));
}

#[test]
fn two_handshakes_draw_different_states() {
    let mut r = SessionRegistry::new(60_000);
    let a = start_session(&mut r).unwrap();
    let b = start_session(&mut r).unwrap();
    let ra = build_authorize_url(&config(), &mut r, &a).unwrap();
    let rb = build_authorize_url(&config(), &mut r, &b).unwrap();
    assert_ne!(ra.csrf_state, rb.csrf_state);
    assert_eq!(begin_redirect(&r, "c".to_string(), &rb.csrf_state).unwrap().session_id, b);
    assert_eq!(begin_redirect(&r, "c".to_string(), &ra.csrf_state).unwrap().session_id, a);
}

#[test]
fn poll_times_out_at_the_deadline_and_tells_unknown_apart() {
    let mut r = SessionRegistry::new(60_000);
    r.create_at("s".to_string(), 0).unwrap();
    assert!(matches!(poll_token_at(&mut r, "s", 99, 100), PollStep::Wait(1)));
    assert!(matches!(poll_token_at(&mut r, "s", 100, 100), PollStep::TimedOut));
    assert!(matches!(poll_token_at(&mut r, "s", 101, 100), PollStep::TimedOut));
    assert!(matches!(poll_token_at(&mut r, "nobody", 0, 100), PollStep::NotFound));
    assert!(matches!(poll_token_at(&mut r, "nobody", 200, 100), PollStep::NotFound));
    assert!(matches!(
        poll_token_at(&mut r, "s", i64::MIN, i64::MAX),
        PollStep::Wait(u64::MAX)
    ));
    assert!(r.contains("s"));
    r.deliver("s", "t".to_string()).unwrap();
    assert!(matches!(poll_token_at(&mut r, "s", 500, 100), PollStep::Ready(_)));
}

#[test]
fn poll_with_the_clock_times_out_on_a_past_deadline() {
    let mut r = SessionRegistry::new(60_000);
    r.create_at("s".to_string(), 0).unwrap();
    assert!(matches!(poll_token(&mut r, "s", 0), PollStep::TimedOut));
    assert!(matches!(poll_token(&mut r, "s", i64::MAX), PollStep::Wait(_)));
}

#[test]
fn deadline_saturates() {
    assert_eq!(deadline_after(0, 0), 0);
    assert_eq!(deadline_after(-5, 10), 5);
    assert_eq!(deadline_after(i64::MAX, 1), i64::MAX);
    assert_eq!(deadline_after(0, u64::MAX), i64::MAX);
    assert_eq!(deadline_after(i64::MIN, u64::MAX), i64::MAX);
    assert_eq!(deadline_after(i64::MIN, 1), i64::MIN + 1);
}

#[test]
fn provider_failure_is_surfaced_and_nothing_is_delivered() {
    let mut r = SessionRegistry::new(60_000);
    r.create_at("s".to_string(), 0).unwrap();
    match finish_redirect(&mut r, "s", Err("bad_verification_code".to_string())) {
        Err(AppError::UpstreamExchangeFailed(m)) => assert_eq!(m, "bad_verification_code"),
        other => panic!("unexpected {:?}", other),
    }
    assert_eq!(r.phase("s"), Phase::Started);
    assert!(matches!(
        finish_redirect(&mut r, "gone", Ok("t".to_string())),
        Err(AppError::NotFound(_))
    ));
    finish_redirect(&mut r, "s", Ok("t1".to_string())).unwrap();
    assert!(matches!(
        finish_redirect(&mut r, "s", Ok("t2".to_string())),
        Err(AppError::AlreadyDelivered)
    ));
}

#[test]
fn replayed_redirect_is_refused_once_delivered() {
    let mut r = SessionRegistry::new(60_000);
    r.create_at("s".to_string(), 0).unwrap();
    authorize_with_state(&config(), &mut r, "s", "xyz".to_string()).unwrap();
    r.deliver("s", "t".to_string()).unwrap();
    assert!(matches!(begin_redirect(&r, "c".to_string(), "xyz"), Err(AppError::AlreadyDelivered)));
}

#[test]
fn redirect_is_not_issued_without_url_or_session() {
    let mut r = SessionRegistry::new(60_000);
    r.create_at("s".to_string(), 0).unwrap();
    let no_url = issue_redirect(&mut r, "s", "x".to_string(), Err(ProviderError::InvalidEndpoint));
    assert!(matches!(no_url, Err(AppError::Unexpected(_))));
    assert_eq!(r.phase("s"), Phase::Started);
    let bad = ProviderConfig { authorize_endpoint: "nope".to_string(), client_id: "a".to_string() };
    assert!(matches!(
        authorize_with_state(&bad, &mut r, "s", "x".to_string()),
        Err(AppError::Unexpected(_))
    ));
    assert!(matches!(
        authorize_with_state(&config(), &mut r, "gone", "x".to_string()),
        Err(AppError::NotFound(_))
    ));
    let ok = issue_redirect(&mut r, "s", "x".to_string(), Ok("https://u".to_string())).unwrap();
    assert_eq!(ok.url, "https://u");
    assert_eq!(ok.csrf_state, "x");
    assert_eq!(r.find_by_state("x"), Some("s".to_string()));
}
