//! Confirming a subscription from the token that was mailed to it.
use vstd::prelude::*;

verus! {

#[derive(Debug)]
pub struct Parameters {
    pub subscription_token: String,
}

#[derive(Debug)]
pub enum ConfirmSubscriptionError {
    /// No subscriber holds the token.
    InvalidTokenError,
    UnexpectedError(String),
}

impl ConfirmSubscriptionError {
    pub fn status_code(&self) -> (r: u16)
        ensures
            *self is InvalidTokenError ==> r == 401,
            *self is UnexpectedError ==> r == 500,
    {
        match self {
            ConfirmSubscriptionError::InvalidTokenError => 401,
            ConfirmSubscriptionError::UnexpectedError(_) => 500,
        }
    }

    pub fn message(&self) -> (r: String)
        ensures
            *self is InvalidTokenError ==> r@ == "There is no subscriber associated with the provided token."@,
            *self matches ConfirmSubscriptionError::UnexpectedError(m) ==> r@ == m@,
    {
        match self {
            ConfirmSubscriptionError::InvalidTokenError => String::from_str(
                "There is no subscriber associated with the provided token.",
            ),
            ConfirmSubscriptionError::UnexpectedError(m) => m.clone(),
        }
    }
}

/// The subscriber to confirm, given what the token lookup found.
pub fn subscriber_to_confirm(found: Option<u128>) -> (r: Result<u128, ConfirmSubscriptionError>)
    ensures
        found matches Some(id) ==> r == Ok::<u128, ConfirmSubscriptionError>(id),
        found is None ==> r matches Err(ConfirmSubscriptionError::InvalidTokenError),
{
    match found {
        Some(id) => Ok(id),
        None => Err(ConfirmSubscriptionError::InvalidTokenError),
    }
}

} // verus!
