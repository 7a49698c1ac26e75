//! An in-process event store: an append-only log that fans each emitted
//! event out to subscription channels, and reducers that fold the events of
//! their channel, in order, into a derived state that is read by snapshot.
//!
//! `channel` holds the subscription queue, `reducer` the reducer and its
//! transition trait, `store` the store interface and its in-memory
//! implementation, `laws` the properties proved of how they work together,
//! and `todo` the projections of a small task-list application.
pub mod channel;
pub mod reducer;
pub mod store;
pub mod laws;
pub mod todo;
