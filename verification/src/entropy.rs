//! Unguessable tokens.

use vstd::prelude::*;

verus! {

/// A fresh random session identifier.
///
/// Calls `uuid::Uuid::new_v4` and renders the identifier with its `Display`
/// impl, which writes the hyphenated lower-case form: 36 characters. The 122
/// random bits come from the operating system, so only the length is claimed.
#[verifier::external_body]
pub(crate) fn random_session_id() -> (id: String)
    ensures
        id@.len() == 36,
{
    uuid::Uuid::new_v4().to_string()
}

/// A fresh random CSRF state.
///
/// Calls `oauth2::CsrfToken::new_random`, which draws 16 random bytes and
/// encodes them as URL-safe base64 without padding: 22 characters. Only the
/// length is claimed.
#[verifier::external_body]
pub(crate) fn random_csrf_state() -> (state: String)
    ensures
        state@.len() == 22,
{
    oauth2::CsrfToken::new_random().secret().clone()
}

} // verus!
