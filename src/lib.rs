//! Mirrors the tags of a source repository into a persisted record,
//! processing each newly observed tag exactly once, in the order listed.
pub mod timestamp;
pub mod tag;
pub mod reconcile;
pub mod state;
pub mod error;
pub mod listing;
pub mod publish;
