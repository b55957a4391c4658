//! The service's errors and the requests it answers.

use crate::file_sync::FileStore;
use crate::handshake::ProviderConfig;
use crate::registry::{RegistryError, SessionRegistry, SessionView};
use crate::vault_store::VaultStore;
use vstd::prelude::*;


pub mod auth;
pub mod file;
pub mod vault;

verus! {

/// Everything the server holds between requests.
pub struct ServerState {
    /// The provider settings of the login handshake.
    pub provider: ProviderConfig,
    /// The pending login sessions, by client identifier.
    pub client_ids: SessionRegistry,
    /// The vault table.
    pub vaults: VaultStore,
    /// The file table.
    pub files: FileStore,
    /// How long a client may wait for its token, in milliseconds.
    pub poll_timeout_millis: u64,
}

impl ServerState {
    /// A server with no session, vault or file. Sessions that never receive
    /// their token expire once they are older than `session_ttl_millis`.
    pub fn new(provider: ProviderConfig, session_ttl_millis: i64, poll_timeout_millis: u64) -> (s:
        ServerState)
        ensures
            s.provider == provider,
            s.client_ids@ == Map::<Seq<char>, SessionView>::empty(),
            s.client_ids.ttl() == session_ttl_millis,
            s.vaults@.len() == 0,
            s.vaults.next_id() == 1,
            s.files@.len() == 0,
            s.files.next_id() == 1,
            s.poll_timeout_millis == poll_timeout_millis,
    {
        ServerState {
            provider,
            client_ids: SessionRegistry::new(session_ttl_millis),
            vaults: VaultStore::new(),
            files: FileStore::new(),
            poll_timeout_millis,
        }
    }

    /// The sessions are as in `before`.
    pub open spec fn same_sessions(&self, before: &ServerState) -> bool {
        self.client_ids@ == before.client_ids@
    }

    /// The vault and file tables are as in `before`.
    pub open spec fn same_stores(&self, before: &ServerState) -> bool {
        &&& self.vaults@ == before.vaults@
        &&& self.vaults.next_id() == before.vaults.next_id()
        &&& self.files.state() == before.files.state()
    }

    /// The settings are as in `before`.
    pub open spec fn same_settings(&self, before: &ServerState) -> bool {
        &&& self.provider == before.provider
        &&& self.client_ids.ttl() == before.client_ids.ttl()
        &&& self.poll_timeout_millis == before.poll_timeout_millis
    }
}

/// Why a request failed.
#[derive(Debug)]
pub enum AppError {
    /// A field of the request is missing or malformed; the message says which.
    Validation(String),
    /// The session or vault that the request names is unknown.
    NotFound(String),
    /// The state that the provider echoed is not the state of any
    /// outstanding redirect.
    CsrfMismatch,
    /// The session has its token already.
    AlreadyDelivered,
    /// The provider refused to exchange the code; the message is the
    /// provider's.
    UpstreamExchangeFailed(String),
    /// The store failed; the detail is for the server's log only.
    Persistence(String),
    /// Anything else that went wrong inside the server; the detail is for
    /// the server's log only.
    Unexpected(String),
    /// The token was not delivered within the time allowed.
    Timeout,
}

/// The mathematical value of an [`AppError`].
pub enum AppErrorView {
    Validation(Seq<char>),
    NotFound(Seq<char>),
    CsrfMismatch,
    AlreadyDelivered,
    UpstreamExchangeFailed(Seq<char>),
    Persistence(Seq<char>),
    Unexpected(Seq<char>),
    Timeout,
}

impl View for AppError {
    type V = AppErrorView;

    open spec fn view(&self) -> AppErrorView {
        match self {
            AppError::Validation(m) => AppErrorView::Validation(m@),
            AppError::NotFound(m) => AppErrorView::NotFound(m@),
            AppError::CsrfMismatch => AppErrorView::CsrfMismatch,
            AppError::AlreadyDelivered => AppErrorView::AlreadyDelivered,
            AppError::UpstreamExchangeFailed(m) => AppErrorView::UpstreamExchangeFailed(m@),
            AppError::Persistence(m) => AppErrorView::Persistence(m@),
            AppError::Unexpected(m) => AppErrorView::Unexpected(m@),
            AppError::Timeout => AppErrorView::Timeout,
        }
    }
}

/// The HTTP status that an error is answered with.
pub open spec fn status_of(e: AppErrorView) -> u16 {
    match e {
        AppErrorView::Validation(_) => 400,
        AppErrorView::NotFound(_) => 404,
        AppErrorView::CsrfMismatch => 400,
        AppErrorView::AlreadyDelivered => 409,
        AppErrorView::UpstreamExchangeFailed(_) => 502,
        AppErrorView::Persistence(_) => 500,
        AppErrorView::Unexpected(_) => 500,
        AppErrorView::Timeout => 408,
    }
}

/// The body that an error is answered with. Validation, not-found and
/// provider errors carry their message to the client; a CSRF mismatch and
/// every internal error are answered in general words, so that no detail of
/// the server's state reaches the client.
pub open spec fn body_of(e: AppErrorView) -> Seq<char> {
    match e {
        AppErrorView::Validation(m) => m,
        AppErrorView::NotFound(m) => m,
        AppErrorView::CsrfMismatch => "Bad Request"@,
        AppErrorView::AlreadyDelivered => "Token already delivered"@,
        AppErrorView::UpstreamExchangeFailed(m) => m,
        AppErrorView::Persistence(_) => "Internal Server Error"@,
        AppErrorView::Unexpected(_) => "Internal Server Error"@,
        AppErrorView::Timeout => "Timed out waiting for the token"@,
    }
}

/// The error that a refusal of the registry is reported as.
pub open spec fn registry_error(e: RegistryError) -> AppErrorView {
    match e {
        RegistryError::NotFound => AppErrorView::NotFound("No client ID found"@),
        RegistryError::AlreadyDelivered => AppErrorView::AlreadyDelivered,
        RegistryError::DuplicateId => AppErrorView::Unexpected("Session identifier in use"@),
        RegistryError::StateInUse => AppErrorView::Unexpected("CSRF state in use"@),
    }
}

impl AppError {
    /// The status and body of the response that reports this error.
    pub fn into_response(self) -> (r: (u16, String))
        ensures
            r.0 == status_of(self@),
            r.1@ == body_of(self@),
    {
        match self {
            AppError::Validation(m) => (400, m),
            AppError::NotFound(m) => (404, m),
            AppError::CsrfMismatch => (400, "Bad Request".to_string()),
            AppError::AlreadyDelivered => (409, "Token already delivered".to_string()),
            AppError::UpstreamExchangeFailed(m) => (502, m),
            AppError::Persistence(_) => (500, "Internal Server Error".to_string()),
            AppError::Unexpected(_) => (500, "Internal Server Error".to_string()),
            AppError::Timeout => (408, "Timed out waiting for the token".to_string()),
        }
    }

    /// The error that a refusal of the registry is reported as.
    pub fn from(e: RegistryError) -> (r: AppError)
        ensures
            r@ == registry_error(e),
    {
        match e {
            RegistryError::NotFound => AppError::NotFound("No client ID found".to_string()),
            RegistryError::AlreadyDelivered => AppError::AlreadyDelivered,
            RegistryError::DuplicateId => AppError::Unexpected(
                "Session identifier in use".to_string(),
            ),
            RegistryError::StateInUse => AppError::Unexpected("CSRF state in use".to_string()),
        }
    }

    /// What is written to the server's log for this error: the full detail,
    /// which the response leaves out.
    pub fn log_detail(&self) -> (d: String)
        ensures
            d@ == match self@ {
                AppErrorView::Validation(m) => m,
                AppErrorView::NotFound(m) => m,
                AppErrorView::CsrfMismatch => "CSRF token mismatch"@,
                AppErrorView::AlreadyDelivered => "Token already delivered"@,
                AppErrorView::UpstreamExchangeFailed(m) => m,
                AppErrorView::Persistence(m) => m,
                AppErrorView::Unexpected(m) => m,
                AppErrorView::Timeout => "Timed out waiting for the token"@,
            },
    {
        match self {
            AppError::Validation(m) => m.clone(),
            AppError::NotFound(m) => m.clone(),
            AppError::CsrfMismatch => "CSRF token mismatch".to_string(),
            AppError::AlreadyDelivered => "Token already delivered".to_string(),
            AppError::UpstreamExchangeFailed(m) => m.clone(),
            AppError::Persistence(m) => m.clone(),
            AppError::Unexpected(m) => m.clone(),
            AppError::Timeout => "Timed out waiting for the token".to_string(),
        }
    }
}

} // verus!
