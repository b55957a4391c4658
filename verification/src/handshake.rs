//! The login handshake: issue a session, send the browser to the provider,
//! accept the provider's redirect, hand the token to the waiting client.
//!
//! The coordinator decides; it does not wait and it does not talk to the
//! provider's token endpoint. Where a step needs either, it returns what is
//! to be done and takes the result in the next call.

use crate::clock::now_millis;
use crate::entropy::random_csrf_state;
use crate::provider::{authorize_url, authorize_url_text, ProviderError};
use crate::registry::{
    bind_next, bind_result, deliver_next, deliver_result, fresh, never_takes, phase_of, run,
    states_unique, take_next, Phase, RegistryError, RegistryOp, SessionRegistry, Table,
    TakeOutcome,
};
use crate::routes::{registry_error, AppError, AppErrorView};
use crate::text::same_text;
use vstd::prelude::*;

verus! {

/// What the handshake needs to know of the provider.
#[derive(Debug)]
pub struct ProviderConfig {
    /// The provider's authorize endpoint.
    pub authorize_endpoint: String,
    /// The identifier that the provider knows this application by.
    pub client_id: String,
}

/// Where to send the browser, and the CSRF state that the provider will echo.
#[derive(Debug)]
pub struct Redirect {
    pub url: String,
    pub csrf_state: String,
}

/// A code that is to be exchanged for a token, for one session.
#[derive(Debug)]
pub struct ExchangeRequest {
    pub session_id: String,
    pub code: String,
}

/// What the polling client is told.
#[derive(Debug)]
pub enum PollStep {
    /// The token; the session is consumed.
    Ready(String),
    /// Nothing yet: wait for a delivery, at most this many milliseconds,
    /// then ask again.
    Wait(u64),
    /// Nothing was delivered before the deadline.
    TimedOut,
    /// No session has this identifier.
    NotFound,
}

/// The mathematical value of a [`PollStep`].
pub enum PollStepView {
    Ready(Seq<char>),
    Wait(u64),
    TimedOut,
    NotFound,
}

impl View for PollStep {
    type V = PollStepView;

    open spec fn view(&self) -> PollStepView {
        match self {
            PollStep::Ready(token) => PollStepView::Ready(token@),
            PollStep::Wait(d) => PollStepView::Wait(*d),
            PollStep::TimedOut => PollStepView::TimedOut,
            PollStep::NotFound => PollStepView::NotFound,
        }
    }
}

/// The error reported where the configured endpoint is not a URL.
pub open spec fn endpoint_error() -> AppErrorView {
    AppErrorView::Unexpected("Provider endpoint is not a URL"@)
}

/// Whether a redirect can be issued for session `id` with `state`, given
/// the authorize URL that the provider module built, and if not, why.
pub open spec fn redirect_result(
    t: Table,
    id: Seq<char>,
    state: Seq<char>,
    url: Option<Seq<char>>,
) -> Result<(), AppErrorView> {
    match url {
        None => Err(endpoint_error()),
        Some(_) => match bind_result(t, id, state) {
            Ok(()) => Ok(()),
            Err(e) => Err(registry_error(e)),
        },
    }
}

/// The table after a redirect was issued, or refused.
pub open spec fn redirect_next(
    t: Table,
    id: Seq<char>,
    state: Seq<char>,
    url: Option<Seq<char>>,
) -> Table {
    if url is Some {
        bind_next(t, id, state)
    } else {
        t
    }
}

/// Whether `e` is an error that issuing a redirect for session `id` can
/// end in, on table `t`: the endpoint is not a URL; the session is unknown;
/// the session has its token already; or the state that was drawn is the
/// state of another session.
pub open spec fn refusal_of_redirect(t: Table, id: Seq<char>, e: AppErrorView) -> bool {
    ||| e == endpoint_error()
    ||| e == registry_error(RegistryError::NotFound) && phase_of(t, id) == Phase::Gone
    ||| e == registry_error(RegistryError::AlreadyDelivered) && phase_of(t, id)
        == Phase::Delivered
    ||| e == registry_error(RegistryError::StateInUse) && (phase_of(t, id) == Phase::Started
        || phase_of(t, id) == Phase::AwaitingRedirect)
}

/// No session but `id` is bound to `state`.
pub open spec fn sole_bearer(t: Table, state: Seq<char>, id: Seq<char>) -> bool {
    forall|k: Seq<char>| #[trigger] t.contains_key(k) && t[k].csrf_state == Some(state) ==> k == id
}

/// No session is bound to `state`.
pub open spec fn state_unbound(t: Table, state: Seq<char>) -> bool {
    forall|k: Seq<char>| #[trigger] t.contains_key(k) ==> t[k].csrf_state != Some(state)
}

/// The deadline of a wait that starts at `now` and may last `timeout`
/// milliseconds; a deadline beyond the end of time is the end of time.
pub open spec fn deadline_of(now: i64, timeout: u64) -> i64 {
    if now + timeout > i64::MAX {
        i64::MAX
    } else {
        (now + timeout) as i64
    }
}

/// What a poll answers on table `t` at time `now`, for a wait that ends at
/// `deadline`.
pub open spec fn poll_step(t: Table, id: Seq<char>, now: i64, deadline: i64) -> PollStepView {
    if !t.contains_key(id) {
        PollStepView::NotFound
    } else if t[id].slot is Some {
        PollStepView::Ready(t[id].slot->0)
    } else if now >= deadline {
        PollStepView::TimedOut
    } else {
        PollStepView::Wait((deadline - now) as u64)
    }
}

/// Opens a handshake: registers a session under a fresh random identifier
/// and returns the identifier, which the client polls with. It fails only
/// where the identifier that was drawn is in use already.
pub fn start_session(registry: &mut SessionRegistry) -> (r: Result<String, AppError>)
    ensures
        match r {
            Ok(id) => phase_of(old(registry)@, id@) == Phase::Gone && final(registry)@.contains_key(
                id@,
            ) && final(registry)@ == old(registry)@.insert(
                id@,
                fresh(final(registry)@[id@].created_at),
            ) && phase_of(final(registry)@, id@) == Phase::Started && id@.len() == 36,
            Err(e) => e@ == registry_error(RegistryError::DuplicateId) && final(registry)@ == old(registry)@ && exists|drawn: Seq<char>| #[trigger]
                old(registry)@.contains_key(drawn) && drawn.len() == 36,
        },
        final(registry).ttl() == old(registry).ttl(),
{
    match registry.create() {
        Ok(id) => Ok(id),
        Err(e) => Err(AppError::from(e)),
    }
}

/// Issues the redirect of session `session_id`: binds the session to
/// `state` and hands out the authorize URL `url`, which was built for that
/// state. Nothing is bound where the URL could not be built or the registry
/// refuses the binding.
pub fn issue_redirect(
    registry: &mut SessionRegistry,
    session_id: &str,
    state: String,
    url: Result<String, ProviderError>,
) -> (r: Result<Redirect, AppError>)
    ensures
        match r {
            Ok(redirect) => url is Ok && redirect.url@ == url->Ok_0@ && redirect.csrf_state@
                == state@ && redirect_result(
                old(registry)@,
                session_id@,
                state@,
                Some(url->Ok_0@),
            ) is Ok,
            Err(e) => redirect_result(
                old(registry)@,
                session_id@,
                state@,
                match url {
                    Ok(u) => Some(u@),
                    Err(_) => None,
                },
            ) == Err::<(), AppErrorView>(e@),
        },
        final(registry)@ == redirect_next(
            old(registry)@,
            session_id@,
            state@,
            match url {
                Ok(u) => Some(u@),
                Err(_) => None,
            },
        ),
        final(registry).ttl() == old(registry).ttl(),
{
    match url {
        Err(_) => Err(AppError::Unexpected("Provider endpoint is not a URL".to_string())),
        Ok(u) => {
            let echoed = state.clone();
            match registry.bind_state(session_id, state) {
                Ok(()) => Ok(Redirect { url: u, csrf_state: echoed }),
                Err(e) => Err(AppError::from(e)),
            }
        },
    }
}

/// Builds the provider's authorize URL for session `session_id` around the
/// CSRF state `state`, and binds the session to that state.
pub fn authorize_with_state(
    config: &ProviderConfig,
    registry: &mut SessionRegistry,
    session_id: &str,
    state: String,
) -> (r: Result<Redirect, AppError>)
    ensures
        match r {
            Ok(redirect) => authorize_url_text(
                config.authorize_endpoint@,
                config.client_id@,
                state@,
            ) == Some(redirect.url@) && redirect.csrf_state@ == state@,
            Err(_) => true,
        },
        match r {
            Ok(_) => Ok::<(), AppErrorView>(()),
            Err(e) => Err::<(), AppErrorView>(e@),
        } == redirect_result(
            old(registry)@,
            session_id@,
            state@,
            authorize_url_text(config.authorize_endpoint@, config.client_id@, state@),
        ),
        final(registry)@ == redirect_next(
            old(registry)@,
            session_id@,
            state@,
            authorize_url_text(config.authorize_endpoint@, config.client_id@, state@),
        ),
        final(registry).ttl() == old(registry).ttl(),
{
    let url = authorize_url(
        config.authorize_endpoint.as_str(),
        config.client_id.as_str(),
        state.as_str(),
    );
    issue_redirect(registry, session_id, state, url)
}

/// Builds the provider's authorize URL for session `session_id` around a
/// freshly drawn CSRF state, and binds the session to that state. Each call
/// draws its own state: no two handshakes share one.
pub fn build_authorize_url(
    config: &ProviderConfig,
    registry: &mut SessionRegistry,
    session_id: &str,
) -> (r: Result<Redirect, AppError>)
    ensures
        match r {
            Ok(redirect) => authorize_url_text(
                config.authorize_endpoint@,
                config.client_id@,
                redirect.csrf_state@,
            ) == Some(redirect.url@) && bind_result(
                old(registry)@,
                session_id@,
                redirect.csrf_state@,
            ) is Ok && final(registry)@ == bind_next(
                old(registry)@,
                session_id@,
                redirect.csrf_state@,
            ) && phase_of(final(registry)@, session_id@) == Phase::AwaitingRedirect,
            Err(e) => {
                &&& final(registry)@ == old(registry)@
                &&& refusal_of_redirect(old(registry)@, session_id@, e@)
                &&& exists|drawn: Seq<char>| #[trigger]
                    redirect_result(
                        old(registry)@,
                        session_id@,
                        drawn,
                        authorize_url_text(config.authorize_endpoint@, config.client_id@, drawn),
                    ) == Err::<(), AppErrorView>(e@)
                &&& e@ == endpoint_error() ==> exists|drawn: Seq<char>| #[trigger]
                    authorize_url_text(config.authorize_endpoint@, config.client_id@, drawn)
                        is None
            },
        },
        final(registry).ttl() == old(registry).ttl(),
{
    let state = random_csrf_state();
    let ghost drawn = state@;
    let r = authorize_with_state(config, registry, session_id, state);
    proof {
        if r is Err {
            let url = authorize_url_text(config.authorize_endpoint@, config.client_id@, drawn);
            assert(redirect_result(old(registry)@, session_id@, drawn, url) == Err::<
                (),
                AppErrorView,
            >(r->Err_0@));
            if r->Err_0@ == endpoint_error() {
                reveal_strlit("Provider endpoint is not a URL");
                reveal_strlit("CSRF state in use");
                assert("Provider endpoint is not a URL"@.len() != "CSRF state in use"@.len());
                assert(url is None);
            }
        }
    }
    r
}

/// Checks the state that the provider echoed against the state that was
/// sent out with the redirect. Only an exact match lets the code through to
/// the exchange; on any difference the handshake fails and the code is not
/// exchanged.
pub fn complete_redirect(code: String, returned_state: &str, expected_state: &str) -> (r: Result<
    String,
    AppError,
>)
    ensures
        match r {
            Ok(c) => returned_state@ == expected_state@ && c@ == code@,
            Err(e) => returned_state@ != expected_state@ && e@ == AppErrorView::CsrfMismatch,
        },
{
    if same_text(returned_state, expected_state) {
        Ok(code)
    } else {
        Err(AppError::CsrfMismatch)
    }
}

/// Accepts the provider's redirect: finds the session whose outstanding
/// redirect carries exactly the echoed state, and returns the code to
/// exchange for it. An echoed state that no outstanding redirect carries is
/// a CSRF mismatch; a session that has its token already takes no second
/// one. In both cases no exchange is to be made.
pub fn begin_redirect(registry: &SessionRegistry, code: String, returned_state: &str) -> (r:
    Result<ExchangeRequest, AppError>)
    ensures
        match r {
            Ok(x) => registry@.contains_key(x.session_id@) && registry@[x.session_id@].csrf_state
                == Some(returned_state@) && phase_of(registry@, x.session_id@)
                == Phase::AwaitingRedirect && x.code@ == code@ && sole_bearer(
                registry@,
                returned_state@,
                x.session_id@,
            ),
            Err(e) => if state_unbound(registry@, returned_state@) {
                e@ == AppErrorView::CsrfMismatch
            } else {
                e@ == AppErrorView::AlreadyDelivered
            },
        },
        r is Ok <==> exists|k: Seq<char>| #[trigger]
            registry@.contains_key(k) && registry@[k].csrf_state == Some(returned_state@)
                && registry@[k].slot is None,
        states_unique(registry@),
{
    match registry.find_by_state(returned_state) {
        None => Err(AppError::CsrfMismatch),
        Some(session_id) => {
            proof {
                assert(registry@.contains_key(session_id@));
            }
            match registry.phase(session_id.as_str()) {
                Phase::AwaitingRedirect => {
                    Ok(ExchangeRequest { session_id, code })
                },
                _ => {
                    proof {
                        assert forall|k: Seq<char>| #[trigger]
                            registry@.contains_key(k) && registry@[k].csrf_state == Some(
                                returned_state@,
                            ) implies registry@[k].slot is Some by {
                            assert(registry@.contains_key(session_id@));
                        }
                    }
                    Err(AppError::AlreadyDelivered)
                },
            }
        },
    }
}

/// Takes the outcome of the exchange: a token is delivered into the
/// session, once; a refusal of the provider fails the handshake and is
/// reported with the provider's message. Nothing is retried.
pub fn finish_redirect(
    registry: &mut SessionRegistry,
    session_id: &str,
    exchanged: Result<String, String>,
) -> (r: Result<String, AppError>)
    ensures
        match exchanged {
            Ok(token) => match deliver_result(old(registry)@, session_id@) {
                Ok(()) => r is Ok && r->Ok_0@ == token@,
                Err(e) => r is Err && r->Err_0@ == registry_error(e),
            },
            Err(message) => r is Err && r->Err_0@ == AppErrorView::UpstreamExchangeFailed(
                message@,
            ),
        },
        final(registry)@ == match exchanged {
            Ok(token) => deliver_next(old(registry)@, session_id@, token@),
            Err(_) => old(registry)@,
        },
        final(registry).ttl() == old(registry).ttl(),
{
    match exchanged {
        Err(message) => Err(AppError::UpstreamExchangeFailed(message)),
        Ok(token) => {
            let copy = token.clone();
            match registry.deliver(session_id, token) {
                Ok(()) => Ok(copy),
                Err(e) => Err(AppError::from(e)),
            }
        },
    }
}

/// The deadline of a wait that starts at `now` and may last
/// `timeout_millis`.
pub fn deadline_after(now: i64, timeout_millis: u64) -> (deadline: i64)
    ensures
        deadline == deadline_of(now, timeout_millis),
{
    let end: i128 = now as i128 + timeout_millis as i128;
    if end > i64::MAX as i128 {
        i64::MAX
    } else {
        end as i64
    }
}

/// One poll for the token of session `session_id`, at time `now`, of a wait
/// that ends at `deadline`. A delivered token is returned at once, whatever
/// the time, and the session is consumed. An empty slot before the deadline
/// asks the caller to wait for a delivery, no longer than the time that is
/// left; at the deadline or after it the wait has timed out. An unknown
/// session is reported as such, which is not a timeout.
pub fn poll_token_at(registry: &mut SessionRegistry, session_id: &str, now: i64, deadline: i64) -> (step:
    PollStep)
    ensures
        step@ == poll_step(old(registry)@, session_id@, now, deadline),
        final(registry)@ == take_next(old(registry)@, session_id@),
        final(registry).ttl() == old(registry).ttl(),
{
    match registry.take(session_id) {
        TakeOutcome::Token(token) => PollStep::Ready(token),
        TakeOutcome::NotFound => PollStep::NotFound,
        TakeOutcome::NotYetDelivered => {
            if now >= deadline {
                PollStep::TimedOut
            } else {
                let left: i128 = deadline as i128 - now as i128;
                PollStep::Wait(left as u64)
            }
        },
    }
}

/// One poll for the token of session `session_id`, at the current time, of
/// a wait that ends at `deadline`.
pub fn poll_token(registry: &mut SessionRegistry, session_id: &str, deadline: i64) -> (step:
    PollStep)
    ensures
        exists|now: i64| step@ == #[trigger] poll_step(old(registry)@, session_id@, now, deadline),
        final(registry)@ == take_next(old(registry)@, session_id@),
        final(registry).ttl() == old(registry).ttl(),
{
    let now = now_millis();
    let step = poll_token_at(registry, session_id, now, deadline);
    proof {
        assert(step@ == poll_step(old(registry)@, session_id@, now, deadline));
    }
    step
}

/// A poll never asks for a wait past the deadline: the wait it asks for
/// ends exactly at the deadline, and at the deadline or after it a poll of
/// an empty slot times out instead. A poll before any delivery never
/// returns a token.
pub proof fn law_poll_is_bounded(t: Table, id: Seq<char>, now: i64, deadline: i64)
    requires
        t.contains_key(id),
        t[id].slot is None,
    ensures
        match poll_step(t, id, now, deadline) {
            PollStepView::Wait(left) => now < deadline && now + left == deadline,
            PollStepView::TimedOut => now >= deadline,
            PollStepView::Ready(_) => false,
            PollStepView::NotFound => false,
        },
        take_next(t, id) == t,
{
}

/// A poll returns once the token was delivered: after a delivery to the
/// session, whatever else is done to the registry short of reading the
/// slot, the next poll returns exactly the delivered token, at any time,
/// before the deadline or after it.
pub proof fn law_poll_returns_delivered_token(
    t: Table,
    ttl: i64,
    id: Seq<char>,
    token: Seq<char>,
    ops: Seq<RegistryOp>,
    now: i64,
    deadline: i64,
)
    requires
        deliver_result(t, id) is Ok,
        never_takes(ops, id),
    ensures
        poll_step(run(deliver_next(t, id, token), ttl, ops), id, now, deadline)
            == PollStepView::Ready(token),
{
    crate::registry::law_take_returns_delivered_token(t, ttl, id, token, ops);
}

/// An unknown session and a wait that timed out are told apart.
pub proof fn law_unknown_is_not_timeout(t: Table, id: Seq<char>, now: i64, deadline: i64)
    ensures
        poll_step(t, id, now, deadline) is NotFound <==> !t.contains_key(id),
        poll_step(t, id, now, deadline) is TimedOut ==> t.contains_key(id),
{
}

} // verus!
