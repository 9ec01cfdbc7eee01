//! Request-level logic of the service's routes.
pub mod admin;
pub mod login;
pub mod newsletters;
pub mod subscriptions;
pub mod subscriptions_confirm;
