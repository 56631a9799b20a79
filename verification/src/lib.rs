//! Aggregation core for a user activity timeline: parsing of compact
//! duration tokens, rate-limit-aware pagination decisions, endpoint
//! selection, merging and deduplication of heterogeneous event sources,
//! repository-visibility caching, and mining of commit events from local
//! version-control history.

pub mod collector;
pub mod event;
pub mod merge;
pub mod miner;
pub mod paginator;
pub mod pipeline;
pub mod render;
pub mod strutil;
pub mod timerange;
pub mod visibility;
