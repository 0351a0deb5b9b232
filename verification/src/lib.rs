//! Bounded, de-duplicating history of feed items, together with the pure
//! pieces of a feed-to-chat relay: markup stripping, the conversion of feed
//! entries to items, the decisions of a polling cycle, and message
//! formatting.

pub mod broadcast;
pub mod config;
pub mod conversions;
pub mod history;
pub mod models;
pub mod poll;
pub mod utils;
