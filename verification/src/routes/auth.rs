//! `/auth/`: the requests of the login handshake.
//!
//! A client asks for a client identifier, sends the user's browser to the
//! login page with it, and waits on `start` for its token. The browser comes
//! back from the provider on `redirect`; the code it brings is exchanged for
//! the token, which is delivered to the waiting client.

use crate::clock::now_millis;
use crate::handshake::{
    begin_redirect, build_authorize_url, deadline_after, deadline_of, endpoint_error,
    finish_redirect, poll_step, poll_token_at, redirect_result, refusal_of_redirect,
    sole_bearer, start_session, state_unbound, ExchangeRequest, PollStep, PollStepView,
};
use crate::provider::authorize_url_text;
use crate::registry::{
    bind_next, bind_result, deliver_next, deliver_result, fresh, phase_of, states_unique,
    take_next, Phase, RegistryError,
};
use crate::routes::{registry_error, AppError, AppErrorView, ServerState};
use vstd::prelude::*;

verus! {

/// What a request without a client identifier is told.
pub const NO_CLIENT_ID: &'static str = "No client ID in params";

/// What a redirect without a code is told.
pub const NO_CODE: &'static str = "No code in params";

/// What a redirect without a state is told.
pub const NO_STATE: &'static str = "No state in params";

/// What a delivery without a token is told.
pub const NO_TOKEN: &'static str = "No token in params";

/// The login page, up to the client identifier.
pub const LOGIN_PAGE_HEAD: &'static str = r#"<!DOCTYPE html>
        <html>
            <head>
                <title>Concur Auth</title>
            </head>
            <body>
                Redirecting to GitHub Auth...

                <script>
                    const clientId = ""#;

/// The login page, between the client identifier and the authorize URL.
pub const LOGIN_PAGE_MIDDLE: &'static str = r#"";
                    console.log("Setting client ID:", clientId);
                    window.localStorage.setItem("client_id", clientId);
                    window.location = ""#;

/// The login page, after the authorize URL.
pub const LOGIN_PAGE_TAIL: &'static str = r#"";
                </script>
            </body>
        </html>"#;

/// The page that the browser shows once the token was delivered.
pub const DONE_PAGE: &'static str = r#"<!DOCTYPE html>
        <html>
            <head>
                <title>Concur Auth Success</title>
            </head>
            <body>
                <h1>Successfully authenticated.</h1>
                <p>You can now close this browser tab and return to your application</p>
            </body>
        </html>"#;

/// The answer to a request for a client identifier.
#[derive(Debug)]
pub struct StartResponse {
    pub client_id: String,
}

/// The answer to a client that waited for its token.
#[derive(Debug)]
pub struct ConcurTokenResponse {
    pub access_token: String,
}

/// What a waiting client's request is to do next.
#[derive(Debug)]
pub enum StartStep {
    /// Answer with the token.
    Done(ConcurTokenResponse),
    /// Wait for a delivery, at most this many milliseconds, then ask again.
    Wait(u64),
}

/// The mathematical value of a [`StartStep`].
pub enum StartStepView {
    Done(Seq<char>),
    Wait(u64),
}

impl View for StartStep {
    type V = StartStepView;

    open spec fn view(&self) -> StartStepView {
        match self {
            StartStep::Done(answer) => StartStepView::Done(answer.access_token@),
            StartStep::Wait(left) => StartStepView::Wait(*left),
        }
    }
}

/// The login page for a client identifier and an authorize URL: the page
/// remembers the identifier in the browser and sends the browser on to the
/// URL.
pub open spec fn login_page(client_id: Seq<char>, url: Seq<char>) -> Seq<char> {
    LOGIN_PAGE_HEAD@ + client_id + LOGIN_PAGE_MIDDLE@ + url + LOGIN_PAGE_TAIL@
}

/// The error for a missing field.
pub open spec fn missing(message: Seq<char>) -> AppErrorView {
    AppErrorView::Validation(message)
}

/// What `start` answers for a poll that gave `step`.
pub open spec fn start_answer(step: PollStepView) -> Result<StartStepView, AppErrorView> {
    match step {
        PollStepView::Ready(token) => Ok(StartStepView::Done(token)),
        PollStepView::Wait(left) => Ok(StartStepView::Wait(left)),
        PollStepView::TimedOut => Err(AppErrorView::Timeout),
        PollStepView::NotFound => Err(registry_error(RegistryError::NotFound)),
    }
}

/// A result by the views of what it holds.
pub open spec fn start_view(r: Result<StartStep, AppError>) -> Result<StartStepView, AppErrorView> {
    match r {
        Ok(step) => Ok(step@),
        Err(e) => Err(e@),
    }
}

fn missing_error(message: &'static str) -> (e: AppError)
    ensures
        e@ == missing(message@),
{
    AppError::Validation(String::from_str(message))
}

/// The login page for a client identifier and an authorize URL.
pub fn render_login_page(client_id: &str, url: &str) -> (page: String)
    ensures
        page@ == login_page(client_id@, url@),
{
    let mut page = String::from_str(LOGIN_PAGE_HEAD);
    page.append(client_id);
    page.append(LOGIN_PAGE_MIDDLE);
    page.append(url);
    page.append(LOGIN_PAGE_TAIL);
    page
}

/// `POST /auth/client_id`: opens a handshake and answers with its client
/// identifier, which the client polls with. It fails only where the
/// identifier that was drawn is in use already: never on a server without
/// sessions.
pub fn get_client_id(state: &mut ServerState) -> (r: Result<StartResponse, AppError>)
    ensures
        match r {
            Ok(answer) => {
                &&& phase_of(old(state).client_ids@, answer.client_id@) == Phase::Gone
                &&& final(state).client_ids@.contains_key(answer.client_id@)
                &&& final(state).client_ids@ == old(state).client_ids@.insert(
                    answer.client_id@,
                    fresh(final(state).client_ids@[answer.client_id@].created_at),
                )
                &&& answer.client_id@.len() == 36
            },
            Err(e) => {
                &&& e@ == registry_error(RegistryError::DuplicateId)
                &&& final(state).same_sessions(old(state))
                &&& exists|drawn: Seq<char>| #[trigger]
                    old(state).client_ids@.contains_key(drawn) && drawn.len() == 36
            },
        },
        final(state).same_stores(old(state)),
        final(state).same_settings(old(state)),
{
    match start_session(&mut state.client_ids) {
        Ok(client_id) => Ok(StartResponse { client_id }),
        Err(e) => Err(e),
    }
}

/// `GET /auth/?client_id=…`: the login page of a handshake. Draws the CSRF
/// state of this handshake, binds the session to it, and answers with the
/// page that sends the browser to the provider's authorize URL for that
/// state.
pub fn auth_page(state: &mut ServerState, client_id: Option<&str>) -> (r: Result<String, AppError>)
    ensures
        match r {
            Ok(page) => {
                &&& client_id is Some
                &&& final(state).client_ids@.contains_key(client_id->0@)
                &&& final(state).client_ids@[client_id->0@].csrf_state is Some
                &&& ({
                    let id = client_id->0@;
                    let csrf = final(state).client_ids@[id].csrf_state->0;
                    let url = authorize_url_text(
                        old(state).provider.authorize_endpoint@,
                        old(state).provider.client_id@,
                        csrf,
                    );
                    &&& bind_result(old(state).client_ids@, id, csrf) is Ok
                    &&& final(state).client_ids@ == bind_next(old(state).client_ids@, id, csrf)
                    &&& url is Some
                    &&& page@ == login_page(id, url->0)
                })
            },
            Err(e) => {
                &&& final(state).same_sessions(old(state))
                &&& match client_id {
                    None => e@ == missing(NO_CLIENT_ID@),
                    Some(id) => {
                        &&& refusal_of_redirect(old(state).client_ids@, id@, e@)
                        &&& exists|drawn: Seq<char>| #[trigger]
                            redirect_result(
                                old(state).client_ids@,
                                id@,
                                drawn,
                                authorize_url_text(
                                    old(state).provider.authorize_endpoint@,
                                    old(state).provider.client_id@,
                                    drawn,
                                ),
                            ) == Err::<(), AppErrorView>(e@)
                        &&& e@ == endpoint_error() ==> exists|drawn: Seq<char>| #[trigger]
                            authorize_url_text(
                                old(state).provider.authorize_endpoint@,
                                old(state).provider.client_id@,
                                drawn,
                            ) is None
                    },
                }
            },
        },
        final(state).same_stores(old(state)),
        final(state).same_settings(old(state)),
{
    let id = match client_id {
        Some(id) => id,
        None => {
            return Err(missing_error(NO_CLIENT_ID));
        },
    };
    match build_authorize_url(&state.provider, &mut state.client_ids, id) {
        Ok(redirect) => {
            proof {
                let before = old(state).client_ids@;
                assert(before.contains_key(id@));
                assert(state.client_ids@ == before.insert(
                    id@,
                    crate::registry::SessionView {
                        csrf_state: Some(redirect.csrf_state@),
                        ..before[id@]
                    },
                ));
                assert(state.client_ids@[id@].csrf_state == Some(redirect.csrf_state@));
            }
            Ok(render_login_page(id, redirect.url.as_str()))
        },
        Err(e) => Err(e),
    }
}

/// The deadline of a wait for the token that starts now.
pub fn start_deadline(state: &ServerState) -> (deadline: i64)
    ensures
        exists|now: i64| deadline == #[trigger] deadline_of(now, state.poll_timeout_millis),
{
    let now = now_millis();
    let deadline = deadline_after(now, state.poll_timeout_millis);
    assert(deadline == deadline_of(now, state.poll_timeout_millis));
    deadline
}

/// `GET /auth/start?client_id=…`, one step of it at time `now`: the token,
/// where it was delivered; else how long to wait for a delivery before
/// asking again; a timeout once the deadline has passed. A client
/// identifier that no session has is not found, which is told apart from a
/// timeout.
pub fn start_at(state: &mut ServerState, client_id: Option<&str>, now: i64, deadline: i64) -> (r:
    Result<StartStep, AppError>)
    ensures
        start_view(r) == match client_id {
            Some(id) => start_answer(poll_step(old(state).client_ids@, id@, now, deadline)),
            None => Err(missing(NO_CLIENT_ID@)),
        },
        final(state).client_ids@ == match client_id {
            Some(id) => take_next(old(state).client_ids@, id@),
            None => old(state).client_ids@,
        },
        final(state).same_stores(old(state)),
        final(state).same_settings(old(state)),
{
    let id = match client_id {
        Some(id) => id,
        None => {
            return Err(missing_error(NO_CLIENT_ID));
        },
    };
    match poll_token_at(&mut state.client_ids, id, now, deadline) {
        PollStep::Ready(access_token) => Ok(StartStep::Done(ConcurTokenResponse { access_token })),
        PollStep::Wait(left) => Ok(StartStep::Wait(left)),
        PollStep::TimedOut => Err(AppError::Timeout),
        PollStep::NotFound => Err(AppError::from(RegistryError::NotFound)),
    }
}

/// `GET /auth/start?client_id=…`, one step of it at the current time.
pub fn start(state: &mut ServerState, client_id: Option<&str>, deadline: i64) -> (r: Result<
    StartStep,
    AppError,
>)
    ensures
        match client_id {
            Some(id) => exists|now: i64|
                start_view(r) == start_answer(
                    #[trigger] poll_step(old(state).client_ids@, id@, now, deadline),
                ),
            None => start_view(r) == Err::<StartStepView, AppErrorView>(missing(NO_CLIENT_ID@)),
        },
        final(state).client_ids@ == match client_id {
            Some(id) => take_next(old(state).client_ids@, id@),
            None => old(state).client_ids@,
        },
        final(state).same_stores(old(state)),
        final(state).same_settings(old(state)),
{
    let now = now_millis();
    let r = start_at(state, client_id, now, deadline);
    proof {
        if client_id is Some {
            assert(start_view(r) == start_answer(
                poll_step(old(state).client_ids@, client_id->0@, now, deadline),
            ));
        }
    }
    r
}

/// `GET /auth/redirect?code=…&state=…`, before the exchange: checks that
/// both fields are there and that the state is the state of an outstanding
/// redirect, and returns the code to exchange and the session it is for. On
/// any failure no exchange is to be made.
pub fn redirect(state: &ServerState, code: Option<String>, returned_state: Option<&str>) -> (r:
    Result<ExchangeRequest, AppError>)
    ensures
        match r {
            Ok(x) => {
                &&& code is Some
                &&& returned_state is Some
                &&& x.code@ == code->0@
                &&& state.client_ids@.contains_key(x.session_id@)
                &&& state.client_ids@[x.session_id@].csrf_state == Some(returned_state->0@)
                &&& phase_of(state.client_ids@, x.session_id@) == Phase::AwaitingRedirect
                &&& sole_bearer(state.client_ids@, returned_state->0@, x.session_id@)
            },
            Err(e) => if code is None {
                e@ == missing(NO_CODE@)
            } else if returned_state is None {
                e@ == missing(NO_STATE@)
            } else if state_unbound(state.client_ids@, returned_state->0@) {
                e@ == AppErrorView::CsrfMismatch
            } else {
                e@ == AppErrorView::AlreadyDelivered
            },
        },
        r is Ok <==> code is Some && returned_state is Some && exists|k: Seq<char>| #[trigger]
            state.client_ids@.contains_key(k) && state.client_ids@[k].csrf_state == Some(
                returned_state->0@,
            ) && state.client_ids@[k].slot is None,
        states_unique(state.client_ids@),
{
    proof {
        use_type_invariant(&state.client_ids);
        state.client_ids.states_are_unique();
    }
    let code = match code {
        Some(code) => code,
        None => {
            return Err(missing_error(NO_CODE));
        },
    };
    let returned_state = match returned_state {
        Some(s) => s,
        None => {
            return Err(missing_error(NO_STATE));
        },
    };
    let r = begin_redirect(&state.client_ids, code, returned_state);
    proof {
        if r is Ok {
            assert(state.client_ids@.contains_key(r->Ok_0.session_id@));
        }
    }
    r
}

/// `GET /auth/redirect`, after the exchange: delivers the token into the
/// session and answers with the page that tells the user to return to the
/// application; or reports why the handshake failed.
pub fn redirect_done(state: &mut ServerState, session_id: &str, exchanged: Result<
    String,
    String,
>) -> (r: Result<String, AppError>)
    ensures
        match exchanged {
            Ok(token) => match deliver_result(old(state).client_ids@, session_id@) {
                Ok(()) => r is Ok && r->Ok_0@ == DONE_PAGE@,
                Err(e) => r is Err && r->Err_0@ == registry_error(e),
            },
            Err(message) => r is Err && r->Err_0@ == AppErrorView::UpstreamExchangeFailed(
                message@,
            ),
        },
        final(state).client_ids@ == match exchanged {
            Ok(token) => deliver_next(old(state).client_ids@, session_id@, token@),
            Err(_) => old(state).client_ids@,
        },
        final(state).same_stores(old(state)),
        final(state).same_settings(old(state)),
{
    match finish_redirect(&mut state.client_ids, session_id, exchanged) {
        Ok(_) => Ok(String::from_str(DONE_PAGE)),
        Err(e) => Err(e),
    }
}

/// `POST /auth/token`: delivers a token to a session out of band. A session
/// takes one token: a second delivery is refused.
pub fn token(state: &mut ServerState, client_id: Option<&str>, access_token: Option<String>) -> (r:
    Result<(), AppError>)
    ensures
        match r {
            Ok(()) => client_id is Some && access_token is Some && deliver_result(
                old(state).client_ids@,
                client_id->0@,
            ) is Ok,
            Err(e) => if client_id is None {
                e@ == missing(NO_CLIENT_ID@)
            } else if access_token is None {
                e@ == missing(NO_TOKEN@)
            } else {
                deliver_result(old(state).client_ids@, client_id->0@) == Err::<
                    (),
                    RegistryError,
                >(RegistryError::NotFound) && e@ == registry_error(RegistryError::NotFound)
                    || deliver_result(old(state).client_ids@, client_id->0@) == Err::<
                    (),
                    RegistryError,
                >(RegistryError::AlreadyDelivered) && e@ == registry_error(
                    RegistryError::AlreadyDelivered,
                )
            },
        },
        final(state).client_ids@ == if client_id is Some && access_token is Some {
            deliver_next(old(state).client_ids@, client_id->0@, access_token->0@)
        } else {
            old(state).client_ids@
        },
        final(state).same_stores(old(state)),
        final(state).same_settings(old(state)),
{
    let id = match client_id {
        Some(id) => id,
        None => {
            return Err(missing_error(NO_CLIENT_ID));
        },
    };
    let delivered = match access_token {
        Some(delivered) => delivered,
        None => {
            return Err(missing_error(NO_TOKEN));
        },
    };
    match state.client_ids.deliver(id, delivered) {
        Ok(()) => Ok(()),
        Err(e) => Err(AppError::from(e)),
    }
}

/// Removes the sessions that never received their token and are older than
/// the registry's time to live at `now`.
pub fn sweep_at(state: &mut ServerState, now: i64)
    ensures
        final(state).client_ids@ == crate::registry::expire_next(
            old(state).client_ids@,
            now,
            old(state).client_ids.ttl(),
        ),
        final(state).same_stores(old(state)),
        final(state).same_settings(old(state)),
{
    state.client_ids.expire(now);
}

/// Removes the sessions that never received their token and have outlived
/// the registry's time to live.
pub fn sweep(state: &mut ServerState)
    ensures
        exists|now: i64|
            final(state).client_ids@ == #[trigger] crate::registry::expire_next(
                old(state).client_ids@,
                now,
                old(state).client_ids.ttl(),
            ),
        final(state).same_stores(old(state)),
        final(state).same_settings(old(state)),
{
    let now = now_millis();
    sweep_at(state, now);
}

} // verus!
