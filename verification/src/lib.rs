//! Group-membership update pipeline for an identity-profile store.
//!
//! The crate covers two pieces: the group-attribute mutation engine, which
//! merges a target group list into a profile snapshot and produces a signed
//! attribute, and the update worker, which drains a bounded queue of update
//! requests and pushes each change to the profile store through a client
//! capability.

pub mod groups;
pub mod queue;
pub mod schema;
pub mod updater;
