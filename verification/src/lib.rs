//! Decides which new feed items reach which subscriber, and when.
//!
//! The crate holds the decisions only: what a fetched feed contains, whether
//! an item is new for a subscriber, whether it passes the subscriber's
//! keyword filter, and whether enough time has passed since the last
//! delivery. Fetching, sending and storing are left to the caller.

pub mod text;
pub mod clock;
pub mod xml;
pub mod feed;
pub mod domain_types;
pub mod cooldown;
pub mod filter;
pub mod lookup;
pub mod feed_url;
pub mod state;
pub mod poll;
pub mod rss_bot;
pub mod schedule;
