//! The OAuth provider's authorize endpoint.

use vstd::prelude::*;

verus! {

/// The error `oauth2` reports for an endpoint that is not a URL.
#[verifier::external_type_specification]
#[verifier::external_body]
pub struct ExParseError(oauth2::url::ParseError);

/// The authorize URL that `oauth2` builds for an authorization-code request
/// from the provider's endpoint, the application's client identifier and the
/// CSRF state; `None` where the endpoint is not a URL.
pub uninterp spec fn authorize_url_text(
    endpoint: Seq<char>,
    client_id: Seq<char>,
    state: Seq<char>,
) -> Option<Seq<char>>;

/// Builds the authorize URL with `oauth2`.
///
/// Calls `AuthUrl::new`, `BasicClient::new`, `Client::authorize_url` and
/// `AuthorizationRequest::url`, with no client secret, token endpoint,
/// redirect URL or scope. `AuthUrl::new` fails exactly where the endpoint does
/// not parse as a URL; the rest appends `response_type=code`, `client_id` and
/// `state` to the endpoint's query and reads no other input, so the result is
/// a function of the three arguments and is named by [`authorize_url_text`].
#[verifier::external_body]
pub(crate) fn request_url(endpoint: &str, client_id: &str, state: &str) -> (r: Result<
    String,
    oauth2::url::ParseError,
>)
    ensures
        match r {
            Ok(url) => authorize_url_text(endpoint@, client_id@, state@) == Some(url@),
            Err(_) => authorize_url_text(endpoint@, client_id@, state@) is None,
        },
{
    let auth_url = oauth2::AuthUrl::new(endpoint.to_string())?;
    let id = oauth2::ClientId::new(client_id.to_string());
    let client = oauth2::basic::BasicClient::new(id, None, auth_url, None);
    let token = oauth2::CsrfToken::new(state.to_string());
    let (url, _) = client.authorize_url(|| token).url();
    Ok(url.to_string())
}

/// Why an authorize URL could not be built.
#[derive(Debug, PartialEq, Eq, Structural)]
pub enum ProviderError {
    /// The configured endpoint is not a URL.
    InvalidEndpoint,
}

/// The provider's authorize URL for one handshake, carrying `state`.
pub fn authorize_url(endpoint: &str, client_id: &str, state: &str) -> (r: Result<
    String,
    ProviderError,
>)
    ensures
        match r {
            Ok(url) => authorize_url_text(endpoint@, client_id@, state@) == Some(url@),
            Err(e) => e == ProviderError::InvalidEndpoint && authorize_url_text(
                endpoint@,
                client_id@,
                state@,
            ) is None,
        },
{
    match request_url(endpoint, client_id, state) {
        Ok(url) => Ok(url),
        Err(_) => Err(ProviderError::InvalidEndpoint),
    }
}

} // verus!
