//! Newsletter publishing core: an idempotency guard that replays stored
//! responses, a transactional outbox that fans an issue out to its
//! recipients, and the delivery worker that drains it.

pub mod codec;
pub mod configuration;
pub mod domain;
pub mod idempotency;
pub mod login;
pub mod newsletter;
pub mod persistence;
pub mod startup;
pub mod store;
pub mod subscriptions;
pub mod worker;
