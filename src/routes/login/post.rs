//! Outcomes of a login attempt.
use vstd::prelude::*;
use vstd::string::StringSliceAdditionalSpecFns;
use crate::idempotency::{see_other, see_other_view, SavedResponse};

verus! {

/// Where a failed login sends the user back to.
pub const LOGIN_PAGE: &'static str = "/login";

/// Where a successful login sends the user.
pub const DASHBOARD: &'static str = "/admin/dashboard";

#[derive(Debug)]
pub enum LoginError {
    /// The credentials were wrong.
    AuthError(String),
    /// Something else failed.
    UnexepectedError(String),
}

impl LoginError {
    /// The text shown to the user; it never reveals the cause.
    pub fn message(&self) -> (r: String)
        ensures
            *self is AuthError ==> r@ == "Authentication failed."@,
            *self is UnexepectedError ==> r@ == "Something went wrong"@,
    {
        match self {
            LoginError::AuthError(_) => String::from_str("Authentication failed."),
            LoginError::UnexepectedError(_) => String::from_str("Something went wrong"),
        }
    }
}

/// The redirect back to the login page after a failed attempt.
pub fn login_redirect(_e: &LoginError) -> (r: SavedResponse)
    ensures
        r@ == see_other_view(LOGIN_PAGE.spec_bytes()),
{
    see_other(LOGIN_PAGE)
}

/// The redirect to the dashboard after a successful attempt.
pub fn login_success() -> (r: SavedResponse)
    ensures
        r@ == see_other_view(DASHBOARD.spec_bytes()),
{
    see_other(DASHBOARD)
}

} // verus!
