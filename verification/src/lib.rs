//! A verified core for a paper-trend pipeline: fetch a batch of paper
//! records, enrich each one through a fallible extraction call, collect
//! the pairs that succeed, and rank the tags they carry.
//!
//! The network, model and database round trips live outside the library;
//! what stands here is every decision the pipeline makes about their
//! results, with contracts that pin those decisions down.

pub mod analyzers;
pub mod config;
pub mod extracters;
pub mod fetchers;
pub mod models;
pub mod sciffer;
pub mod text;
pub mod tools;
