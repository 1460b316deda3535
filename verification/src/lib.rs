//! A verified single-host web crawler core.
//!
//! The crate holds the crawl engine's logic: the frontier of pending URLs,
//! the per-domain robots.txt policy, the crawlability decision, link
//! extraction and normalization, and the content-addressed store model.
//! Network transfer and the durable database sit outside the library; the
//! engine reports which fetches it needs and which records it has added, and
//! the surrounding program performs them.

pub mod digest;
pub mod engine;
pub mod html;
pub mod robots;
pub mod store;
pub mod text;
pub mod unique_queue;
pub mod urls;
