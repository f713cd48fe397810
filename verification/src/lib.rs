//! A single-session, multi-account task tracker.
//!
//! The account and task store ([`store`]) keeps tasks and users in memory,
//! enforces session and ownership rules, and allocates task ids that are
//! never reused. The persistence codec ([`codec`]) renders both collections
//! as the JSON documents the tracker persists and parses them back, with a
//! proved round trip.

pub mod codec;
pub mod store;
