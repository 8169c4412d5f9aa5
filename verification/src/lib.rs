//! A doubly-linked list whose nodes live in an external key-value store.
//!
//! Each grouping key owns an independent list. A sentinel head slot tracks
//! the front and tail of the chain; every value owns one slot holding its
//! `prev` and `next` neighbours. Append and removal rewire a constant number
//! of slots; traversal follows `next` pointers for a bounded number of steps.

pub mod item;
pub mod laws;
pub mod list;
pub mod mem_store;
pub mod store;
