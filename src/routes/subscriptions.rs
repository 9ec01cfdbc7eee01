//! The sign-up form.
use vstd::prelude::*;

verus! {

#[derive(Debug)]
pub struct FormData {
    pub email: String,
    pub name: String,
}

} // verus!
