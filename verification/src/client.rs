//! The authentication handshake's decision logic.
//!
//! A connection starts unauthenticated. The caller sends one authentication
//! request, then drains responses and hands each outcome to `auth_step`
//! until it decides: on success the connection may be split into its read
//! and write halves; on a rejected password the same connection may be
//! retried with another password; a ban or any transport or decode failure
//! ends the connection's usefulness. Responses of any other kind during the
//! handshake are skipped, not errors.

use vstd::prelude::*;

use crate::inner_client::{AuthError as AuthRejection, Response, ResponseModel};
use crate::Error;

verus! {

/// Why an authentication attempt failed.
#[derive(Debug, Clone, Copy, PartialEq, Eq, Structural)]
pub enum AuthError {
    /// The password was rejected; the connection may be retried.
    InvalidPassword,
    /// The server turned this client away; abandon the connection.
    Banned,
    /// A transport or decode failure; abandon the connection.
    Fatal(Error),
}

/// What the handshake loop does with one received outcome.
#[derive(Debug, Clone, Copy, PartialEq, Eq, Structural)]
pub enum AuthStep {
    /// The server accepted: split the connection into its two halves.
    Success,
    /// Not an authentication result: keep waiting.
    Skip,
    /// The handshake is over without success.
    Fail(AuthError),
}

/// The handshake decision on one received outcome.
pub open spec fn auth_step_model(r: Result<ResponseModel, Error>) -> AuthStep {
    match r {
        Ok(resp) => match resp {
            ResponseModel::Auth(res) => match res {
                Ok(u) => AuthStep::Success,
                Err(AuthRejection::InvalidPassword) => AuthStep::Fail(AuthError::InvalidPassword),
                Err(AuthRejection::Banned) => AuthStep::Fail(AuthError::Banned),
            },
            ResponseModel::ConsoleLog(text) => AuthStep::Skip,
        },
        Err(e) => AuthStep::Fail(AuthError::Fatal(e)),
    }
}

/// Decides one step of the handshake receive loop; mirrors
/// `auth_step_model`. The first authentication result ends the loop; any
/// other response is discarded and the loop continues.
pub fn auth_step(r: Result<Response, Error>) -> (s: AuthStep)
    ensures
        s == auth_step_model(
            match r {
                Ok(resp) => Ok::<ResponseModel, Error>(resp@),
                Err(e) => Err(e),
            },
        ),
{
    match r {
        Ok(Response::Auth { res: Ok(()) }) => AuthStep::Success,
        Ok(Response::Auth { res: Err(AuthRejection::InvalidPassword) }) => AuthStep::Fail(
            AuthError::InvalidPassword,
        ),
        Ok(Response::Auth { res: Err(AuthRejection::Banned) }) => AuthStep::Fail(AuthError::Banned),
        Ok(Response::ConsoleLog { msg: _ }) => AuthStep::Skip,
        Err(e) => AuthStep::Fail(AuthError::Fatal(e)),
    }
}

/// Decides one step of the post-authentication read loop: a console line is
/// handed to the caller; a stray authentication result — which the server
/// should no longer send — is discarded rather than treated as an error.
pub fn log_step(r: Response) -> (s: Option<String>)
    ensures
        match r@ {
            ResponseModel::ConsoleLog(text) => s matches Some(m) && m@ == text,
            ResponseModel::Auth(res) => s is None,
        },
{
    match r {
        Response::ConsoleLog { msg } => Some(msg),
        Response::Auth { res: _ } => None,
    }
}

} // verus!
