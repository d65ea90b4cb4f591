//! Matching engine for a campus dating service.
//!
//! The heart of the service is small and worth getting exactly right:
//! a ledger of like/pass decisions, a resolver that turns two mutual
//! "like" decisions into exactly one canonical match record, and a
//! compatibility ranker that orders the candidates a user has not yet
//! acted on. Everything here is verified; the surrounding web plumbing
//! (OAuth, sessions, HTTP, blob storage) lives outside the library and
//! talks to it through plain values.

pub mod auth;
pub mod error;
pub mod laws;
pub mod matching;
pub mod messages;
pub mod models;
pub mod profile;
pub mod ranking;
pub mod store;
pub mod text;

pub use error::AppError;
