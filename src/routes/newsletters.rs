//! The JSON body of a newsletter sent straight to every confirmed subscriber.
use vstd::prelude::*;

verus! {

#[derive(Debug)]
pub struct Content {
    pub html: String,
    pub text: String,
}

#[derive(Debug)]
pub struct BodyData {
    pub title: String,
    pub content: Content,
}

#[derive(Debug)]
pub enum PublishError {
    UnexepectedError(String),
}

impl PublishError {
    /// Every failure here is the server's.
    pub fn status_code(&self) -> (r: u16)
        ensures
            r == 500,
    {
        match self {
            PublishError::UnexepectedError(_) => 500,
        }
    }
}

} // verus!
