//! Verified core of a downloader for archive.org items.

pub mod bandwidth;
pub mod bars;
pub mod batch;
pub mod cli;
pub mod config;
pub mod cookies;
pub mod digest;
pub mod error;
pub mod filters;
pub mod headers;
pub mod listing;
pub mod messages;
pub mod numbers;
pub mod order;
pub mod ordered;
pub mod paint;
pub mod paths;
pub mod plan;
pub mod sanitize;
pub mod single;
pub mod speed;
pub mod text;
pub mod transfer;
pub mod units;
pub mod urls;
