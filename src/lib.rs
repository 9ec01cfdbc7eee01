//! The idempotent newsletter publication and delivery pipeline.
pub mod idempotency;
pub mod outbox;
pub mod delivery;
pub mod store;
pub mod routes;
