//! A learning platform's rules, verified: users and roles, student profiles,
//! course requests and their approval, enrollments and grades, proposals and
//! votes, bans, removals and the token configuration.
//!
//! - `principal`: the identities of callers.
//! - `principal_map`: maps keyed by identities.
//! - `model`: the records the platform keeps and the replies it gives.
//! - `platform`: the platform's state and every operation on it.
//! - `laws`: what holds across operations.
pub mod laws;
pub mod model;
pub mod platform;
pub mod principal;
pub mod principal_map;
